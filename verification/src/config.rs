//! Storage profiles and the configuration that lists them by name.
//!
//! Profiles live in two insertion-ordered maps, `storage` and the older `accounts`; names are
//! looked up ignoring ASCII case, `storage` first.
use vstd::prelude::*;
use indexmap::IndexMap;
use crate::calendar::{push_utc_date, utc_timestamp_text};
use crate::error::{Error, ErrorCode};
use vstd::string::StrSliceExecFns;
use vstd::set_lib::{lemma_int_range, lemma_subset_equality, set_int_range};
use crate::profile_map::{has_key, keys_distinct, map_contains_key, map_get_index, map_len, map_new, profile_entries};
use crate::text::{
    eq_ignore_ascii_case, lemma_lex_order, lex_le, owned, push_char, push_signed_padded, str_eq_ignore_ascii_case,
    str_lex_le, to_lowercase, unicode_lowercase,
};

verus! {

/// A storage profile: the Azure account and container it targets.
#[derive(Debug)]
pub struct StorageProfile {
    pub provider: String,
    pub account_name: String,
    pub container_name: String,
    pub endpoint: Option<String>,
    pub added_at: Option<String>,
}

fn clone_opt(s: &Option<String>) -> (r: Option<String>)
    ensures
        r == *s,
{
    match s {
        Some(v) => Some(v.clone()),
        None => None,
    }
}

impl Clone for StorageProfile {
    fn clone(&self) -> (r: Self)
        ensures
            r == *self,
    {
        StorageProfile {
            provider: self.provider.clone(),
            account_name: self.account_name.clone(),
            container_name: self.container_name.clone(),
            endpoint: clone_opt(&self.endpoint),
            added_at: clone_opt(&self.added_at),
        }
    }
}

/// The provider a profile names when the file gives none.
pub fn default_provider() -> (r: String)
    ensures
        r@ == "azure"@,
{
    owned("azure")
}

/// The layout version a file has when it gives none.
pub fn default_version() -> (r: u32)
    ensures
        r == 1,
{
    1
}

/// The configuration file: a layout version and the profiles by name.
pub struct Config {
    pub version: u32,
    pub storage: IndexMap<String, StorageProfile>,
    pub accounts: IndexMap<String, StorageProfile>,
}

impl Default for Config {
    fn default() -> (r: Self)
        ensures
            r.version == 1,
            profile_entries(r.storage).len() == 0,
            profile_entries(r.accounts).len() == 0,
    {
        Config { version: 1, storage: map_new(), accounts: map_new() }
    }
}

/// Position `i` holds the first name in `e` equal to `name` ignoring ASCII case.
pub open spec fn is_first_match(e: Seq<(Seq<char>, StorageProfile)>, name: Seq<char>, i: int) -> bool {
    &&& 0 <= i < e.len()
    &&& eq_ignore_ascii_case(e[i].0, name)
    &&& forall|j: int| 0 <= j < i ==> !eq_ignore_ascii_case(#[trigger] e[j].0, name)
}

/// The first pair of `e` whose name equals `name` ignoring ASCII case.
pub open spec fn lookup(e: Seq<(Seq<char>, StorageProfile)>, name: Seq<char>) -> Option<(Seq<char>, StorageProfile)> {
    if exists|i: int| is_first_match(e, name, i) {
        Some(e[choose|i: int| is_first_match(e, name, i)])
    } else {
        None
    }
}

/// The profile named `name` ignoring ASCII case: in `storage` if it has one, else in `accounts`.
pub open spec fn config_find(cfg: Config, name: Seq<char>) -> Option<(Seq<char>, StorageProfile)> {
    match lookup(profile_entries(cfg.storage), name) {
        Some(kv) => Some(kv),
        None => lookup(profile_entries(cfg.accounts), name),
    }
}

/// A found pair by value: the name's characters and the profile.
pub open spec fn found_view(r: Option<(&String, &StorageProfile)>) -> Option<(Seq<char>, StorageProfile)> {
    match r {
        Some(kv) => Some((kv.0@, *kv.1)),
        None => None,
    }
}

/// A first match is unique.
pub proof fn lemma_first_match_unique(e: Seq<(Seq<char>, StorageProfile)>, name: Seq<char>, i: int, j: int)
    requires
        is_first_match(e, name, i),
        is_first_match(e, name, j),
    ensures
        i == j,
{
    if i < j {
        assert(!eq_ignore_ascii_case(e[i].0, name));
    } else if j < i {
        assert(!eq_ignore_ascii_case(e[j].0, name));
    }
}

/// The first pair of `m` whose name equals `name` ignoring ASCII case.
pub(crate) fn find_in<'a>(m: &'a IndexMap<String, StorageProfile>, name: &str) -> (r: Option<(&'a String, &'a StorageProfile)>)
    ensures
        found_view(r) == lookup(profile_entries(*m), name@),
{
    let n = map_len(m);
    let ghost e = profile_entries(*m);
    let mut i: usize = 0;
    while i < n
        invariant
            i <= n,
            n == e.len(),
            e == profile_entries(*m),
            forall|j: int| 0 <= j < i ==> !eq_ignore_ascii_case(#[trigger] e[j].0, name@),
        decreases n - i,
    {
        let kv = map_get_index(m, i).unwrap();
        if str_eq_ignore_ascii_case(kv.0.as_str(), name) {
            proof {
                assert(is_first_match(e, name@, i as int));
                lemma_first_match_unique(e, name@, i as int, choose|k: int| is_first_match(e, name@, k));
            }
            return Some(kv);
        }
        i = i + 1;
    }
    None
}

/// The key by which profiles are listed: the name in Unicode lower case.
pub open spec fn sort_key(kv: (Seq<char>, StorageProfile)) -> Seq<char> {
    unicode_lowercase(kv.0)
}

/// Pairs of references by value.
pub open spec fn pairs_view(v: Seq<(&String, &StorageProfile)>) -> Seq<(Seq<char>, StorageProfile)> {
    v.map_values(|kv: (&String, &StorageProfile)| (kv.0@, *kv.1))
}

/// Pairs whose name `s` lacks.
pub open spec fn not_named_in(s: Seq<(Seq<char>, StorageProfile)>) -> spec_fn((Seq<char>, StorageProfile)) -> bool {
    |kv: (Seq<char>, StorageProfile)| !has_key(s, kv.0)
}

/// All profiles: those of `storage` in order, then those of `accounts` whose names `storage` lacks.
pub open spec fn merged_entries(cfg: Config) -> Seq<(Seq<char>, StorageProfile)> {
    let s = profile_entries(cfg.storage);
    s + profile_entries(cfg.accounts).filter(not_named_in(s))
}

/// `p` shows `out` to be a stable reordering of `inp`: position `i` of `out` holds item `p[i]`
/// of `inp`, each item once, and items of equal key keep their order.
pub open spec fn is_stable_witness(
    out: Seq<(Seq<char>, StorageProfile)>,
    inp: Seq<(Seq<char>, StorageProfile)>,
    p: Seq<int>,
) -> bool {
    &&& p.len() == out.len()
    &&& forall|i: int| 0 <= i < out.len() ==> 0 <= #[trigger] p[i] < inp.len() && out[i] == inp[p[i]]
    &&& forall|i: int, j: int|
        #![trigger p[i], p[j]]
        0 <= i < j < out.len() ==> p[i] != p[j] && (sort_key(out[i]) == sort_key(out[j]) ==> p[i] < p[j])
}

/// `out` is `inp` stably sorted by `sort_key` in the order of `str`.
pub open spec fn is_stable_sort(out: Seq<(Seq<char>, StorageProfile)>, inp: Seq<(Seq<char>, StorageProfile)>) -> bool {
    &&& out.len() == inp.len()
    &&& forall|i: int, j: int|
        #![trigger out[i], out[j]]
        0 <= i < j < out.len() ==> lex_le(sort_key(out[i]), sort_key(out[j]))
    &&& exists|p: Seq<int>| is_stable_witness(out, inp, p)
}

/// The profiles of `cfg` as `sorted` lists them: the one stable sort of all its profiles.
pub open spec fn sorted_profiles(cfg: Config) -> Seq<(Seq<char>, StorageProfile)> {
    choose|o: Seq<(Seq<char>, StorageProfile)>| is_stable_sort(o, merged_entries(cfg))
}

proof fn lemma_witness_onto(p: Seq<int>, n: int, q: int)
    requires
        p.len() == n,
        forall|i: int| 0 <= i < n ==> 0 <= #[trigger] p[i] < n,
        forall|i: int, j: int| #![trigger p[i], p[j]] 0 <= i < j < n ==> p[i] != p[j],
        0 <= q < n,
    ensures
        exists|t: int| 0 <= t < n && p[t] == q,
{
    assert(p.no_duplicates()) by {
        assert forall|i: int, j: int| 0 <= i < p.len() && 0 <= j < p.len() && i != j implies p[i] != p[j] by {
            if i < j {
                assert(p[i] != p[j]);
            } else {
                assert(p[j] != p[i]);
            }
        }
    }
    p.unique_seq_to_set();
    lemma_int_range(0, n);
    assert(p.to_set().subset_of(set_int_range(0, n))) by {
        assert forall|x: int| p.to_set().contains(x) implies set_int_range(0, n).contains(x) by {
            let t = choose|t: int| 0 <= t < p.len() && p[t] == x;
            assert(0 <= p[t] < n);
        }
    }
    vstd::seq_lib::seq_to_set_is_finite(p);
    lemma_subset_equality(p.to_set(), set_int_range(0, n));
    assert(set_int_range(0, n).contains(q));
    assert(p.to_set().contains(q));
    assert(p.contains(q));
}

proof fn lemma_witnesses_agree(
    o1: Seq<(Seq<char>, StorageProfile)>,
    o2: Seq<(Seq<char>, StorageProfile)>,
    inp: Seq<(Seq<char>, StorageProfile)>,
    p1: Seq<int>,
    p2: Seq<int>,
    t: int,
)
    requires
        is_stable_sort(o1, inp),
        is_stable_sort(o2, inp),
        is_stable_witness(o1, inp, p1),
        is_stable_witness(o2, inp, p2),
        0 <= t <= inp.len(),
    ensures
        forall|k: int| 0 <= k < t ==> p1[k] == p2[k],
    decreases t,
{
    if t > 0 {
        lemma_witnesses_agree(o1, o2, inp, p1, p2, t - 1);
        let k = t - 1;
        let n = inp.len() as int;
        let a = p1[k];
        let b = p2[k];
        if a != b {
            assert(0 <= a < n && 0 <= b < n);
            lemma_witness_onto(p1, n, b);
            lemma_witness_onto(p2, n, a);
            let s = choose|s: int| 0 <= s < n && p1[s] == b;
            let u = choose|u: int| 0 <= u < n && p2[u] == a;
            if s < k {
                assert(p1[s] == p2[s]);
                assert(p2[s] != p2[k]);
            }
            if u < k {
                assert(p2[u] == p1[u]);
                assert(p1[u] != p1[k]);
            }
            assert(s > k && u > k);
            assert(o1[k] == inp[a] && o1[s] == inp[b]);
            assert(o2[k] == inp[b] && o2[u] == inp[a]);
            assert(lex_le(sort_key(o1[k]), sort_key(o1[s])));
            assert(lex_le(sort_key(o2[k]), sort_key(o2[u])));
            lemma_lex_order(sort_key(inp[a]), sort_key(inp[b]), sort_key(inp[a]));
            assert(sort_key(inp[a]) == sort_key(inp[b]));
            assert(p1[k] < p1[s]);
            assert(p2[k] < p2[u]);
        }
    }
}

/// A stable sort is unique: any two stable sorts of the same profiles are equal.
pub proof fn lemma_stable_sort_unique(
    o1: Seq<(Seq<char>, StorageProfile)>,
    o2: Seq<(Seq<char>, StorageProfile)>,
    inp: Seq<(Seq<char>, StorageProfile)>,
)
    requires
        is_stable_sort(o1, inp),
        is_stable_sort(o2, inp),
    ensures
        o1 == o2,
{
    let p1 = choose|p: Seq<int>| is_stable_witness(o1, inp, p);
    let p2 = choose|p: Seq<int>| is_stable_witness(o2, inp, p);
    lemma_witnesses_agree(o1, o2, inp, p1, p2, inp.len() as int);
    assert forall|k: int| 0 <= k < o1.len() implies o1[k] == o2[k] by {
        assert(p1[k] == p2[k]);
        assert(0 <= p1[k]);
        assert(0 <= p2[k]);
    }
    assert(o1 =~= o2);
}

/// Dropping pairs keeps names distinct.
proof fn lemma_filter_keys_distinct(
    e: Seq<(Seq<char>, StorageProfile)>,
    pred: spec_fn((Seq<char>, StorageProfile)) -> bool,
)
    requires
        keys_distinct(e),
    ensures
        keys_distinct(e.filter(pred)),
    decreases e.len(),
{
    reveal_with_fuel(Seq::filter, 1);
    if e.len() > 0 {
        let d = e.drop_last();
        assert(keys_distinct(d)) by {
            assert forall|i: int, j: int| 0 <= i < j < d.len() implies (#[trigger] d[i]).0 != (#[trigger] d[j]).0 by {
                assert(d[i] == e[i] && d[j] == e[j]);
            }
        }
        lemma_filter_keys_distinct(d, pred);
        let f = d.filter(pred);
        if pred(e.last()) {
            assert forall|i: int| 0 <= i < f.len() implies (#[trigger] f[i]).0 != e.last().0 by {
                assert(f.contains(f[i]));
                d.lemma_filter_contains_rev(pred, f[i]);
                let k = choose|k: int| 0 <= k < d.len() && d[k] == f[i];
                assert(e[k] == d[k]);
                assert(e[k].0 != e[e.len() - 1].0);
            }
            assert(e.filter(pred) == f.push(e.last()));
            assert forall|i: int, j: int| 0 <= i < j < f.push(e.last()).len() implies (#[trigger] f.push(
                e.last(),
            )[i]).0 != (#[trigger] f.push(e.last())[j]).0 by {
                if j == f.len() {
                    assert(f.push(e.last())[i] == f[i]);
                } else {
                    assert(f.push(e.last())[i] == f[i] && f.push(e.last())[j] == f[j]);
                }
            }
        }
    }
}

/// `storage`'s pairs followed by those of `accounts` whose names `storage` lacks hold each name
/// once, when each map does.
proof fn lemma_merged_keys_distinct(s: Seq<(Seq<char>, StorageProfile)>, a: Seq<(Seq<char>, StorageProfile)>)
    requires
        keys_distinct(s),
        keys_distinct(a),
    ensures
        keys_distinct(s + a.filter(not_named_in(s))),
{
    let f = a.filter(not_named_in(s));
    lemma_filter_keys_distinct(a, not_named_in(s));
    let m = s + f;
    assert forall|i: int, j: int| 0 <= i < j < m.len() implies (#[trigger] m[i]).0 != (#[trigger] m[j]).0 by {
        if j < s.len() {
            assert(m[i] == s[i] && m[j] == s[j]);
        } else if i >= s.len() {
            assert(m[i] == f[i - s.len()] && m[j] == f[j - s.len()]);
        } else {
            assert(m[i] == s[i] && m[j] == f[j - s.len()]);
            a.lemma_filter_pred(not_named_in(s), j - s.len());
            assert(!has_key(s, f[j - s.len()].0));
        }
    }
}

/// A stable reordering of pairs with distinct names has distinct names.
proof fn lemma_stable_sort_keys_distinct(out: Seq<(Seq<char>, StorageProfile)>, inp: Seq<(Seq<char>, StorageProfile)>)
    requires
        is_stable_sort(out, inp),
        keys_distinct(inp),
    ensures
        keys_distinct(out),
{
    let p = choose|p: Seq<int>| is_stable_witness(out, inp, p);
    assert forall|i: int, j: int| 0 <= i < j < out.len() implies (#[trigger] out[i]).0 != (#[trigger] out[j]).0 by {
        assert(p[i] != p[j]);
        assert(0 <= p[i] < inp.len() && 0 <= p[j] < inp.len());
        if p[i] < p[j] {
            assert(inp[p[i]].0 != inp[p[j]].0);
        } else {
            assert(inp[p[j]].0 != inp[p[i]].0);
        }
    }
}

spec fn sort_inv(
    out: Seq<(Seq<char>, StorageProfile)>,
    ks: Seq<Seq<char>>,
    p: Seq<int>,
    inp: Seq<(Seq<char>, StorageProfile)>,
    n: int,
) -> bool {
    &&& out.len() == n && ks.len() == n && p.len() == n && n <= inp.len()
    &&& forall|j: int| 0 <= j < n ==> 0 <= #[trigger] p[j] < n && out[j] == inp[p[j]] && ks[j] == sort_key(out[j])
    &&& forall|j: int, k: int|
        #![trigger ks[j], ks[k]]
        0 <= j < k < n ==> lex_le(ks[j], ks[k])
    &&& forall|j: int, k: int|
        #![trigger p[j], p[k]]
        0 <= j < k < n ==> p[j] != p[k] && (ks[j] == ks[k] ==> p[j] < p[k])
}

proof fn lemma_sort_step(
    out: Seq<(Seq<char>, StorageProfile)>,
    ks: Seq<Seq<char>>,
    p: Seq<int>,
    inp: Seq<(Seq<char>, StorageProfile)>,
    n: int,
    pos: int,
    kx: Seq<char>,
)
    requires
        sort_inv(out, ks, p, inp, n),
        n < inp.len(),
        kx == sort_key(inp[n]),
        0 <= pos <= n,
        forall|j: int| 0 <= j < pos ==> lex_le(#[trigger] ks[j], kx),
        pos < n ==> !lex_le(ks[pos], kx),
    ensures
        sort_inv(out.insert(pos, inp[n]), ks.insert(pos, kx), p.insert(pos, n), inp, n + 1),
{
    let out2 = out.insert(pos, inp[n]);
    let ks2 = ks.insert(pos, kx);
    let p2 = p.insert(pos, n);
    out.insert_ensures(pos, inp[n]);
    ks.insert_ensures(pos, kx);
    p.insert_ensures(pos, n);
    // Everything at or after `pos` has a key strictly above `kx`.
    assert forall|k: int| pos <= k < n implies lex_le(kx, #[trigger] ks[k]) && ks[k] != kx by {
        lemma_lex_order(ks[pos], kx, ks[k]);
        lemma_lex_order(kx, ks[pos], ks[k]);
        if k > pos {
            assert(lex_le(ks[pos], ks[k]));
        }
    }
    assert forall|j: int| 0 <= j < n + 1 implies 0 <= #[trigger] p2[j] < n + 1 && out2[j] == inp[p2[j]]
        && ks2[j] == sort_key(out2[j]) by {
        if j < pos {
            assert(p2[j] == p[j]);
        } else if j > pos {
            assert(p2[j] == p[j - 1]);
        }
    }
    assert forall|j: int, k: int| 0 <= j < k < n + 1 implies lex_le(#[trigger] ks2[j], #[trigger] ks2[k]) by {
        if k < pos {
        } else if k == pos {
            assert(ks2[k] == kx);
        } else if j < pos {
            assert(ks2[k] == ks[k - 1]);
            assert(lex_le(kx, ks[k - 1]));
            lemma_lex_order(ks[j], kx, ks[k - 1]);
        } else if j == pos {
            assert(ks2[k] == ks[k - 1]);
        } else {
            assert(ks2[j] == ks[j - 1] && ks2[k] == ks[k - 1]);
        }
    }
    assert forall|j: int, k: int| 0 <= j < k < n + 1 implies #[trigger] p2[j] != #[trigger] p2[k] && (ks2[j]
        == ks2[k] ==> p2[j] < p2[k]) by {
        if k < pos {
        } else if k == pos {
            assert(p2[k] == n);
            assert(p2[j] == p[j]);
        } else if j < pos {
            assert(p2[k] == p[k - 1] && ks2[k] == ks[k - 1]);
        } else if j == pos {
            assert(p2[k] == p[k - 1] && ks2[k] == ks[k - 1]);
            assert(ks[k - 1] != kx);
        } else {
            assert(p2[j] == p[j - 1] && p2[k] == p[k - 1]);
            assert(ks2[j] == ks[j - 1] && ks2[k] == ks[k - 1]);
        }
    }
}

fn stable_sort_by_name<'a>(v: &Vec<(&'a String, &'a StorageProfile)>) -> (r: Vec<(&'a String, &'a StorageProfile)>)
    ensures
        is_stable_sort(pairs_view(r@), pairs_view(v@)),
{
    let n = v.len();
    let ghost inp = pairs_view(v@);
    let mut out: Vec<(&'a String, &'a StorageProfile)> = Vec::new();
    let mut keys: Vec<String> = Vec::new();
    let ghost mut p: Seq<int> = Seq::empty();
    let mut i: usize = 0;
    while i < n
        invariant
            i <= n,
            n == v.len(),
            inp == pairs_view(v@),
            sort_inv(pairs_view(out@), keys@.map_values(|s: String| s@), p, inp, i as int),
        decreases n - i,
    {
        let ghost ks = keys@.map_values(|s: String| s@);
        let kv = v[i];
        let key = to_lowercase(kv.0.as_str());
        assert(key@ == sort_key(inp[i as int]));
        let mut pos: usize = 0;
        while pos < i && str_lex_le(keys[pos].as_str(), key.as_str())
            invariant
                pos <= i,
                i == keys.len(),
                ks == keys@.map_values(|s: String| s@),
                forall|j: int| 0 <= j < pos ==> lex_le(#[trigger] ks[j], key@),
            decreases i - pos,
        {
            pos = pos + 1;
        }
        let ghost before = pairs_view(out@);
        proof {
            lemma_sort_step(before, ks, p, inp, i as int, pos as int, key@);
        }
        out.insert(pos, kv);
        keys.insert(pos, key);
        proof {
            p = p.insert(pos as int, i as int);
            assert(pairs_view(out@) =~= before.insert(pos as int, inp[i as int]));
            assert(keys@.map_values(|s: String| s@) =~= ks.insert(pos as int, key@));
        }
        i = i + 1;
    }
    proof {
        let o = pairs_view(out@);
        let ks = keys@.map_values(|s: String| s@);
        assert(is_stable_witness(o, inp, p));
        assert forall|a: int, b: int| 0 <= a < b < o.len() implies lex_le(sort_key(#[trigger] o[a]), sort_key(
            #[trigger] o[b],
        )) by {
            assert(0 <= p[a] && 0 <= p[b]);
            assert(lex_le(ks[a], ks[b]));
        }
    }
    out
}

impl Config {
    /// All profiles (those of `accounts` only where `storage` lacks the name), sorted by
    /// lower-cased name; profiles of equal key keep their order, and each name comes once.
    pub fn sorted(&self) -> (r: Vec<(&String, &StorageProfile)>)
        ensures
            is_stable_sort(pairs_view(r@), merged_entries(*self)),
            pairs_view(r@) == sorted_profiles(*self),
            keys_distinct(pairs_view(r@)),
    {
        let ghost s = profile_entries(self.storage);
        let ghost a = profile_entries(self.accounts);
        let mut v: Vec<(&String, &StorageProfile)> = Vec::new();
        let n1 = map_len(&self.storage);
        let mut i: usize = 0;
        while i < n1
            invariant
                i <= n1,
                n1 == s.len(),
                s == profile_entries(self.storage),
                v.len() == i,
                pairs_view(v@) == s.take(i as int),
                forall|x: int, y: int|
                    #![trigger s[x], s[y]]
                    0 <= x < i && 0 <= y < s.len() && x != y ==> s[x].0 != s[y].0,
            decreases n1 - i,
        {
            let kv = map_get_index(&self.storage, i).unwrap();
            assert(forall|y: int| 0 <= y < s.len() && y != i ==> s[i as int].0 != #[trigger] s[y].0);
            let ghost before = v@;
            v.push(kv);
            assert(v@ == before.push(kv));
            assert(before.len() == i);
            assert(pairs_view(v@).len() == i + 1);
            assert(pairs_view(v@)[i as int] == (kv.0@, *kv.1));
            assert(pairs_view(v@)[i as int] == s[i as int]);
            assert(pairs_view(v@) =~= s.take(i + 1));
            i = i + 1;
        }
        assert(s.take(n1 as int) =~= s);
        let n2 = map_len(&self.accounts);
        let mut j: usize = 0;
        while j < n2
            invariant
                j <= n2,
                n2 == a.len(),
                s == profile_entries(self.storage),
                a == profile_entries(self.accounts),
                pairs_view(v@) == s + a.take(j as int).filter(not_named_in(s)),
                keys_distinct(s),
                forall|x: int, y: int|
                    #![trigger a[x], a[y]]
                    0 <= x < j && 0 <= y < a.len() && x != y ==> a[x].0 != a[y].0,
            decreases n2 - j,
        {
            reveal_with_fuel(Seq::filter, 1);
            let kv = map_get_index(&self.accounts, j).unwrap();
            assert(forall|y: int| 0 <= y < a.len() && y != j ==> a[j as int].0 != #[trigger] a[y].0);
            assert(a.take(j + 1).drop_last() =~= a.take(j as int));
            assert(a.take(j + 1).last() == a[j as int]);
            assert(not_named_in(s)(a[j as int]) == !has_key(s, a[j as int].0));
            let ghost before = v@;
            if !map_contains_key(&self.storage, kv.0) {
                v.push(kv);
                assert(v@ == before.push(kv));
                assert(pairs_view(v@) =~= pairs_view(before).push(a[j as int]));
                assert(pairs_view(v@) =~= s + a.take(j + 1).filter(not_named_in(s)));
            } else {
                assert(pairs_view(v@) =~= s + a.take(j + 1).filter(not_named_in(s)));
            }
            j = j + 1;
        }
        assert(a.take(n2 as int) =~= a);
        let r = stable_sort_by_name(&v);
        proof {
            let o = pairs_view(r@);
            assert(is_stable_sort(o, merged_entries(*self)));
            lemma_stable_sort_unique(o, sorted_profiles(*self), merged_entries(*self));
            assert(keys_distinct(a));
            lemma_merged_keys_distinct(s, a);
            lemma_stable_sort_keys_distinct(o, merged_entries(*self));
        }
        r
    }

    /// The profile named `name`, ignoring ASCII case, from `storage` first, then `accounts`.
    pub fn find(&self, name: &str) -> (r: Option<(&String, &StorageProfile)>)
        ensures
            found_view(r) == config_find(*self, name@),
    {
        match find_in(&self.storage, name) {
            Some(kv) => Some(kv),
            None => find_in(&self.accounts, name),
        }
    }
}

/// The operating system family, which decides where configuration lives.
#[derive(Clone, Copy, Debug, PartialEq, Eq, Structural)]
pub enum Platform {
    Windows,
    MacOs,
    OtherUnix,
}

pub open spec fn opt_str_view(o: Option<&str>) -> Seq<char> {
    match o {
        Some(s) => s@,
        None => Seq::empty(),
    }
}

/// The configuration directory as path components to join in order: the override when it is
/// not empty; else on Windows `%APPDATA%/storage-cli`; on macOS
/// `~/Library/Application Support/storage-cli`; elsewhere `$XDG_CONFIG_HOME/storage-cli`, or
/// `~/.config/storage-cli` when that is unset or empty (a missing home counts as empty).
pub open spec fn config_dir_components(
    override_dir: Option<&str>,
    platform: Platform,
    home: Option<&str>,
    appdata: Option<&str>,
    xdg_config_home: Option<&str>,
) -> Seq<Seq<char>> {
    if override_dir matches Some(d) && d@.len() > 0 {
        seq![override_dir->0@]
    } else {
        match platform {
            Platform::Windows => seq![opt_str_view(appdata), "storage-cli"@],
            Platform::MacOs => seq![opt_str_view(home), "Library"@, "Application Support"@, "storage-cli"@],
            Platform::OtherUnix => if xdg_config_home matches Some(x) && x@.len() > 0 {
                seq![xdg_config_home->0@, "storage-cli"@]
            } else {
                seq![opt_str_view(home), ".config"@, "storage-cli"@]
            },
        }
    }
}

/// Where the configuration lives: a non-empty override wins on every platform, whatever else
/// is set; on Linux and other Unix systems an unset `XDG_CONFIG_HOME` counts as an empty one,
/// and without a non-empty one the directory is `<home>/.config/storage-cli`; with one it is
/// `<XDG_CONFIG_HOME>/storage-cli`. The last component is `storage-cli` unless the override
/// decides.
pub proof fn lemma_config_dir_rules(
    override_dir: Option<&str>,
    platform: Platform,
    home: Option<&str>,
    appdata: Option<&str>,
    xdg_config_home: Option<&str>,
    other_platform: Platform,
    other_home: Option<&str>,
    other_appdata: Option<&str>,
    other_xdg: Option<&str>,
)
    ensures
        (override_dir matches Some(d) && d@.len() > 0) ==> config_dir_components(
            override_dir,
            platform,
            home,
            appdata,
            xdg_config_home,
        ) == config_dir_components(override_dir, other_platform, other_home, other_appdata, other_xdg)
            && config_dir_components(override_dir, platform, home, appdata, xdg_config_home) == seq![
            override_dir->0@,
        ],
        !(override_dir matches Some(d) && d@.len() > 0) ==> {
            let c = config_dir_components(override_dir, platform, home, appdata, xdg_config_home);
            c.len() > 0 && c.last() == "storage-cli"@
        },
        config_dir_components(None, Platform::OtherUnix, home, appdata, None) == config_dir_components(
            None,
            Platform::OtherUnix,
            home,
            appdata,
            Some(""),
        ),
        !(override_dir matches Some(d) && d@.len() > 0) && !(xdg_config_home matches Some(x) && x@.len() > 0)
            ==> config_dir_components(override_dir, Platform::OtherUnix, home, appdata, xdg_config_home) == seq![
            opt_str_view(home),
            ".config"@,
            "storage-cli"@,
        ],
        !(override_dir matches Some(d) && d@.len() > 0) && (xdg_config_home matches Some(x) && x@.len() > 0)
            ==> config_dir_components(override_dir, Platform::OtherUnix, home, appdata, xdg_config_home) == seq![
            xdg_config_home->0@,
            "storage-cli"@,
        ],
        !(override_dir matches Some(d) && d@.len() > 0) ==> config_dir_components(
            override_dir,
            Platform::MacOs,
            home,
            appdata,
            xdg_config_home,
        ) == seq![opt_str_view(home), "Library"@, "Application Support"@, "storage-cli"@],
        !(override_dir matches Some(d) && d@.len() > 0) ==> config_dir_components(
            override_dir,
            Platform::Windows,
            home,
            appdata,
            xdg_config_home,
        ) == seq![opt_str_view(appdata), "storage-cli"@],
{
    reveal_strlit("");
}

fn opt_owned(o: Option<&str>) -> (r: String)
    ensures
        r@ == opt_str_view(o),
{
    match o {
        Some(s) => owned(s),
        None => String::new(),
    }
}

/// The configuration directory as path components to join in order.
pub fn config_dir_parts(
    override_dir: Option<&str>,
    platform: Platform,
    home: Option<&str>,
    appdata: Option<&str>,
    xdg_config_home: Option<&str>,
) -> (r: Vec<String>)
    ensures
        r@.map_values(|s: String| s@) == config_dir_components(override_dir, platform, home, appdata, xdg_config_home),
{
    let mut v: Vec<String> = Vec::new();
    match override_dir {
        Some(d) if d.unicode_len() > 0 => {
            v.push(owned(d));
        },
        _ => match platform {
            Platform::Windows => {
                v.push(opt_owned(appdata));
                v.push(owned("storage-cli"));
            },
            Platform::MacOs => {
                v.push(opt_owned(home));
                v.push(owned("Library"));
                v.push(owned("Application Support"));
                v.push(owned("storage-cli"));
            },
            Platform::OtherUnix => {
                match xdg_config_home {
                    Some(x) if x.unicode_len() > 0 => {
                        v.push(owned(x));
                    },
                    _ => {
                        v.push(opt_owned(home));
                        v.push(owned(".config"));
                    },
                }
                v.push(owned("storage-cli"));
            },
        },
    }
    assert(v@.map_values(|s: String| s@) =~= config_dir_components(
        override_dir,
        platform,
        home,
        appdata,
        xdg_config_home,
    ));
    v
}

/// Which configuration file is read.
#[derive(Clone, Copy, Debug, PartialEq, Eq, Structural)]
pub enum ConfigFile {
    /// `config.yaml` in the configuration directory.
    Standard,
    /// `config.yaml` in the working directory.
    Local,
    /// `src/config.yaml` under the working directory.
    SrcLocal,
}

/// The file in the configuration directory when it exists; else `config.yaml`, then
/// `src/config.yaml`, in the working directory, when one exists; else the standard file.
pub fn config_path(standard_exists: bool, local_exists: bool, src_local_exists: bool) -> (r: ConfigFile)
    ensures
        r == if standard_exists {
            ConfigFile::Standard
        } else if local_exists {
            ConfigFile::Local
        } else if src_local_exists {
            ConfigFile::SrcLocal
        } else {
            ConfigFile::Standard
        },
{
    if standard_exists {
        ConfigFile::Standard
    } else if local_exists {
        ConfigFile::Local
    } else if src_local_exists {
        ConfigFile::SrcLocal
    } else {
        ConfigFile::Standard
    }
}

/// A configuration text that is blank holds no profiles.
pub fn config_text_is_blank(text: &str) -> (r: bool)
    ensures
        r == (crate::text::trimmed(text@).len() == 0),
{
    crate::text::trim(text).unicode_len() == 0
}

/// The error for a configuration file at `path` that cannot be read as YAML for `reason`.
pub fn invalid_config_error(path: &str, reason: &str) -> (r: Error)
    ensures
        r.code == ErrorCode::Error,
        r.message@ == path@ + " is not valid."@,
        r.detail matches Some(d) && d@ == reason@,
        r.fix matches Some(f) && f@ == "Fix or delete "@ + path@ + ", then run: storage accounts add <name>"@,
{
    let mut msg = owned(path);
    crate::text::push_str(&mut msg, " is not valid.");
    let mut fix = owned("Fix or delete ");
    crate::text::push_str(&mut fix, path);
    crate::text::push_str(&mut fix, ", then run: storage accounts add <name>");
    Error::other(msg).detail(owned(reason)).fix(fix)
}

/// Permissions that keep a file (`0600`) or directory (`0700`) to its owner.
pub fn owner_only_mode(is_dir: bool) -> (r: u32)
    ensures
        r == if is_dir { 0o700u32 } else { 0o600u32 },
{
    if is_dir { 0o700 } else { 0o600 }
}

/// How long to wait for the configuration lock, in seconds.
pub const LOCK_TIMEOUT_SECS: u64 = 15;

/// The first pause between attempts to take the lock, in milliseconds.
pub const LOCK_FIRST_DELAY_MS: u64 = 25;

/// The longest pause between attempts to take the lock, in milliseconds.
pub const LOCK_MAX_DELAY_MS: u64 = 400;

/// What an attempt to take the configuration lock gave.
#[derive(Clone, Copy, Debug, PartialEq, Eq, Structural)]
pub enum LockAttempt {
    Acquired,
    WouldBlock,
    Failed,
}

/// What to do after an attempt to take the lock.
#[derive(Clone, Copy, Debug, PartialEq, Eq, Structural)]
pub enum LockStep {
    /// The lock is held.
    Done,
    /// Sleep `sleep_ms`, then try again, next time pausing `next_delay_ms`.
    Retry { sleep_ms: u64, next_delay_ms: u64 },
    /// The deadline passed with the lock held elsewhere.
    TimedOut,
    /// Taking the lock failed outright.
    Fail,
}

/// The next step of taking the lock: retry while the deadline has not passed, doubling the
/// pause up to 400 ms.
pub fn lock_step(attempt: LockAttempt, before_deadline: bool, delay_ms: u64) -> (r: LockStep)
    ensures
        r == match attempt {
            LockAttempt::Acquired => LockStep::Done,
            LockAttempt::Failed => LockStep::Fail,
            LockAttempt::WouldBlock => if before_deadline {
                LockStep::Retry {
                    sleep_ms: delay_ms,
                    next_delay_ms: if 2 * delay_ms < 400 { (2 * delay_ms) as u64 } else { 400u64 },
                }
            } else {
                LockStep::TimedOut
            },
        },
{
    match attempt {
        LockAttempt::Acquired => LockStep::Done,
        LockAttempt::Failed => LockStep::Fail,
        LockAttempt::WouldBlock => {
            if before_deadline {
                let next = if delay_ms < 200 { delay_ms * 2 } else { 400 };
                LockStep::Retry { sleep_ms: delay_ms, next_delay_ms: next }
            } else {
                LockStep::TimedOut
            }
        },
    }
}

/// The error when the lock at `path` could not be had in time.
pub fn lock_timeout_error(path: &str) -> (r: Error)
    ensures
        r.code == ErrorCode::Error,
        r.message@ == "Timed out waiting for the lock at "@ + path@
            + ". Another storage process may be stuck."@,
        r.detail is None,
        r.fix is None,
{
    let mut msg = owned("Timed out waiting for the lock at ");
    crate::text::push_str(&mut msg, path);
    crate::text::push_str(&mut msg, ". Another storage process may be stuck.");
    Error::other(msg)
}

/// `YYYY-MM-DDTHH:MM:SSZ` for `secs` seconds after 1970-01-01T00:00:00Z.
pub fn format_utc(secs: i64) -> (r: String)
    ensures
        r@ == utc_timestamp_text(secs as int),
{
    let mut s = String::new();
    push_utc_date(&mut s, secs);
    let rem: i64 = secs.checked_rem_euclid(86400).unwrap();
    push_char(&mut s, 'T');
    push_signed_padded(&mut s, rem / 3600, 2);
    push_char(&mut s, ':');
    push_signed_padded(&mut s, rem % 3600 / 60, 2);
    push_char(&mut s, ':');
    push_signed_padded(&mut s, rem % 60, 2);
    push_char(&mut s, 'Z');
    s
}

} // verus!
