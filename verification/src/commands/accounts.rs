//! The `accounts` and `login` commands: adding, listing and removing profiles.
use vstd::prelude::*;
use vstd::string::StrSliceExecFns;
use crate::config::{config_find, is_first_match, lemma_first_match_unique, lookup, Config, StorageProfile};
use crate::error::{Error, ErrorCode};
use crate::profile_map::{has_key, keys_distinct, map_insert, map_shift_remove, profile_entries};
use crate::text::{eq_ignore_ascii_case, owned, push_str, str_eq_ignore_ascii_case, trim, trimmed};
use crate::profile_map::{map_get_index, map_len, map_new};

verus! {

/// The profile name and the account and container a new profile gets.
#[derive(Debug)]
pub struct AddPlan {
    pub name: String,
    pub account_name: String,
    pub container_name: String,
}

/// `given` when it is not blank, else `fallback`.
pub open spec fn or_fallback(given: Option<String>, fallback: Seq<char>) -> Seq<char> {
    match given {
        Some(g) => if trimmed(g@).len() > 0 {
            g@
        } else {
            fallback
        },
        None => fallback,
    }
}

/// An account or container name that is not given, or is blank, defaults to the profile name;
/// one that is given and not blank is kept as given.
pub proof fn lemma_names_default_to_profile(given: Option<String>, fallback: Seq<char>)
    ensures
        given is None ==> or_fallback(given, fallback) == fallback,
        given matches Some(g) && trimmed(g@).len() == 0 ==> or_fallback(given, fallback) == fallback,
        given is Some && trimmed(given->0@).len() > 0 ==> or_fallback(given, fallback) == given->0@,
{
}

/// The name of a profile to add (trimmed; blank is an `invalid_input` error), with the account
/// and container defaulting to that name when not given or blank.
pub fn prepare_add(name: &str, account_name: Option<String>, container: Option<String>) -> (r: Result<AddPlan, Error>)
    ensures
        trimmed(name@).len() == 0 ==> (r matches Err(e) && e.code == ErrorCode::InvalidInput && e.message@
            == "Profile name cannot be empty."@),
        trimmed(name@).len() > 0 ==> (r matches Ok(p) && p.name@ == trimmed(name@) && p.account_name@
            == or_fallback(account_name, trimmed(name@)) && p.container_name@ == or_fallback(
            container,
            trimmed(name@),
        )),
{
    let n = trim(name);
    if n.unicode_len() == 0 {
        return Err(Error::invalid(owned("Profile name cannot be empty.")));
    }
    let account = match account_name {
        Some(a) if trim(a.as_str()).unicode_len() > 0 => a,
        _ => owned(n),
    };
    let container_name = match container {
        Some(c) if trim(c.as_str()).unicode_len() > 0 => c,
        _ => owned(n),
    };
    Ok(AddPlan { name: owned(n), account_name: account, container_name })
}

/// A profile may be added under `name` unless one of that name (ignoring ASCII case) exists;
/// with `force` it may be replaced.
pub fn check_add_allowed(cfg: &Config, name: &str, force: bool) -> (r: Result<(), Error>)
    ensures
        r is Ok <==> (config_find(*cfg, name@) is None || force),
        r matches Err(e) ==> e.code == ErrorCode::InvalidInput && e.message@ == "Profile '"@ + name@
            + "' already exists."@ && e.detail is Some && e.detail->0@
            == "An existing profile cannot be overwritten without --force."@ && e.fix is Some && e.fix->0@
            == "storage accounts add "@ + name@ + " --force"@,
{
    if cfg.find(name).is_some() && !force {
        let mut msg = owned("Profile '");
        push_str(&mut msg, name);
        push_str(&mut msg, "' already exists.");
        let mut fix = owned("storage accounts add ");
        push_str(&mut fix, name);
        push_str(&mut fix, " --force");
        return Err(
            Error::invalid(msg).detail(owned("An existing profile cannot be overwritten without --force.")).fix(
                fix,
            ),
        );
    }
    Ok(())
}

/// A secret as entered: trimmed, and none when that leaves nothing.
pub fn normalize_secret(raw: &str) -> (r: Option<String>)
    ensures
        trimmed(raw@).len() == 0 ==> r is None,
        trimmed(raw@).len() > 0 ==> (r matches Some(s) && s@ == trimmed(raw@)),
{
    let t = trim(raw);
    if t.unicode_len() == 0 {
        None
    } else {
        Some(owned(t))
    }
}

/// The profile that `accounts add` stores.
pub fn new_profile(plan: &AddPlan, endpoint: Option<String>, added_at: String) -> (r: StorageProfile)
    ensures
        r.provider@ == "azure"@,
        r.account_name@ == plan.account_name@,
        r.container_name@ == plan.container_name@,
        r.endpoint == endpoint,
        r.added_at == Some(added_at),
{
    StorageProfile {
        provider: owned("azure"),
        account_name: plan.account_name.clone(),
        container_name: plan.container_name.clone(),
        endpoint,
        added_at: Some(added_at),
    }
}

/// Pairs whose name differs from `name` ignoring ASCII case.
pub open spec fn not_ci_named(name: Seq<char>) -> spec_fn((Seq<char>, StorageProfile)) -> bool {
    |kv: (Seq<char>, StorageProfile)| !eq_ignore_ascii_case(kv.0, name)
}

/// `e` with `(name, p)` in place of its first pair named `name` ignoring ASCII case and without
/// its later such pairs; where it has none, `(name, p)` goes last.
pub open spec fn replaced_entries(
    e: Seq<(Seq<char>, StorageProfile)>,
    name: Seq<char>,
    p: StorageProfile,
) -> Seq<(Seq<char>, StorageProfile)> {
    if exists|f: int| is_first_match(e, name, f) {
        let f = choose|f: int| is_first_match(e, name, f);
        e.take(f).push((name, p)) + e.skip(f + 1).filter(not_ci_named(name))
    } else {
        e.push((name, p))
    }
}

/// `after` is `before` with the profile `p` stored under `name`: it replaces the profile of that
/// name ignoring ASCII case in `storage` (or goes last there), and `accounts` keeps only the
/// profiles of other names.
pub open spec fn added(before: Config, after: Config, name: Seq<char>, p: StorageProfile) -> bool {
    &&& after.version == before.version
    &&& profile_entries(after.storage) == replaced_entries(profile_entries(before.storage), name, p)
    &&& profile_entries(after.accounts) == profile_entries(before.accounts).filter(not_ci_named(name))
}

/// Where `name` matches a pair ignoring ASCII case, some pair is the first such.
proof fn lemma_first_match_exists(e: Seq<(Seq<char>, StorageProfile)>, name: Seq<char>, i: int)
    requires
        0 <= i < e.len(),
        eq_ignore_ascii_case(e[i].0, name),
    ensures
        exists|k: int| is_first_match(e, name, k),
    decreases i,
{
    if exists|j: int| 0 <= j < i && eq_ignore_ascii_case(#[trigger] e[j].0, name) {
        let j = choose|j: int| 0 <= j < i && eq_ignore_ascii_case(#[trigger] e[j].0, name);
        lemma_first_match_exists(e, name, j);
    } else {
        assert(is_first_match(e, name, i));
    }
}

/// Where `lookup` finds nothing, no pair matches `name` ignoring ASCII case.
proof fn lemma_lookup_none(e: Seq<(Seq<char>, StorageProfile)>, name: Seq<char>)
    requires
        lookup(e, name) is None,
    ensures
        forall|i: int| 0 <= i < e.len() ==> !eq_ignore_ascii_case(#[trigger] e[i].0, name),
{
    assert forall|i: int| 0 <= i < e.len() implies !eq_ignore_ascii_case(#[trigger] e[i].0, name) by {
        if eq_ignore_ascii_case(e[i].0, name) {
            lemma_first_match_exists(e, name, i);
        }
    }
}

/// Keeping the pairs that all pass `pred` keeps all of them.
proof fn lemma_filter_all(e: Seq<(Seq<char>, StorageProfile)>, pred: spec_fn((Seq<char>, StorageProfile)) -> bool)
    requires
        forall|i: int| 0 <= i < e.len() ==> pred(#[trigger] e[i]),
    ensures
        e.filter(pred) == e,
    decreases e.len(),
{
    reveal_with_fuel(Seq::filter, 1);
    if e.len() > 0 {
        let d = e.drop_last();
        assert forall|i: int| 0 <= i < d.len() implies pred(#[trigger] d[i]) by {
            assert(d[i] == e[i]);
        }
        lemma_filter_all(d, pred);
        assert(pred(e[e.len() - 1]));
        assert(d.push(e.last()) =~= e);
    }
}

/// In `replaced_entries`, the first pair named `name` ignoring ASCII case is `(name, p)`, and no
/// other pair has such a name.
proof fn lemma_replaced_lookup(e: Seq<(Seq<char>, StorageProfile)>, name: Seq<char>, p: StorageProfile)
    ensures
        lookup(replaced_entries(e, name, p), name) == Some((name, p)),
        forall|t: int|
            0 <= t < replaced_entries(e, name, p).len() && eq_ignore_ascii_case(
                (#[trigger] replaced_entries(e, name, p)[t]).0,
                name,
            ) ==> replaced_entries(e, name, p)[t] == (name, p),
{
    let r = replaced_entries(e, name, p);
    assert(eq_ignore_ascii_case(name, name));
    let f: int = if exists|f: int| is_first_match(e, name, f) {
        choose|f: int| is_first_match(e, name, f)
    } else {
        e.len() as int
    };
    if exists|f: int| is_first_match(e, name, f) {
        let g = e.skip(f + 1).filter(not_ci_named(name));
        assert(r == e.take(f).push((name, p)) + g);
        assert forall|t: int| 0 <= t < r.len() && eq_ignore_ascii_case((#[trigger] r[t]).0, name) implies r[t] == (
        name,
        p,
        ) by {
            if t < f {
                assert(r[t] == e[t]);
            } else if t > f {
                assert(r[t] == g[t - f - 1]);
                e.skip(f + 1).lemma_filter_pred(not_ci_named(name), t - f - 1);
            }
        }
    } else {
        assert forall|t: int| 0 <= t < r.len() && eq_ignore_ascii_case((#[trigger] r[t]).0, name) implies r[t] == (
        name,
        p,
        ) by {
            if t < e.len() {
                assert(r[t] == e[t]);
                lemma_first_match_exists(e, name, t);
            }
        }
    }
    assert(r[f] == (name, p));
    assert forall|j: int| 0 <= j < f implies !eq_ignore_ascii_case(#[trigger] r[j].0, name) by {
        assert(r[j] == e[j]);
        if eq_ignore_ascii_case(e[j].0, name) && !(exists|f: int| is_first_match(e, name, f)) {
            lemma_first_match_exists(e, name, j);
        }
    }
    assert(is_first_match(r, name, f));
    lemma_first_match_unique(r, name, f, choose|k: int| is_first_match(r, name, k));
}

/// Stores `profile` under `name`: in `storage` it takes the place of the first profile whose
/// name equals `name` ignoring ASCII case, and later such profiles go; with none it goes last.
/// Profiles of such a name leave `accounts`. So `name` then finds this profile, and it is the
/// only profile of that name, ignoring ASCII case.
pub fn apply_add(cfg: &mut Config, name: String, profile: StorageProfile)
    ensures
        added(*old(cfg), *final(cfg), name@, profile),
        config_find(*final(cfg), name@) == Some((name@, profile)),
        keys_distinct(profile_entries(final(cfg).storage)),
        forall|t: int|
            0 <= t < profile_entries(final(cfg).storage).len() && eq_ignore_ascii_case(
                (#[trigger] profile_entries(final(cfg).storage)[t]).0,
                name@,
            ) ==> profile_entries(final(cfg).storage)[t] == (name@, profile),
        forall|t: int|
            0 <= t < profile_entries(final(cfg).accounts).len() ==> !eq_ignore_ascii_case(
                (#[trigger] profile_entries(final(cfg).accounts)[t]).0,
                name@,
            ),
{
    let ghost e = profile_entries(cfg.storage);
    let ghost a = profile_entries(cfg.accounts);
    let ghost key = name@;
    let n = map_len(&cfg.storage);
    let mut storage = map_new();
    let mut placed = false;
    let ghost mut f: int = 0;
    let mut i: usize = 0;
    while i < n
        invariant
            i <= n,
            n == e.len(),
            e == profile_entries(cfg.storage),
            key == name@,
            keys_distinct(profile_entries(storage)),
            forall|x: int, y: int|
                #![trigger e[x], e[y]]
                0 <= x < i && 0 <= y < e.len() && x != y ==> e[x].0 != e[y].0,
            forall|t: int|
                0 <= t < profile_entries(storage).len() ==> (#[trigger] profile_entries(storage)[t]).0 == key || exists|
                    x: int,
                | 0 <= x < i && profile_entries(storage)[t].0 == #[trigger] e[x].0,
            !placed ==> (forall|j: int| 0 <= j < i ==> !eq_ignore_ascii_case(#[trigger] e[j].0, key))
                && profile_entries(storage) == e.take(i as int),
            placed ==> is_first_match(e, key, f) && f < i && profile_entries(storage) == e.take(f).push((key, profile))
                + e.subrange(f + 1, i as int).filter(not_ci_named(key)),
        decreases n - i,
    {
        let kv = map_get_index(&cfg.storage, i).unwrap();
        let ghost before = profile_entries(storage);
        proof {
            assert(forall|y: int| 0 <= y < e.len() && y != i ==> e[i as int].0 != #[trigger] e[y].0);
            reveal_with_fuel(Seq::filter, 1);
        }
        if str_eq_ignore_ascii_case(kv.0.as_str(), name.as_str()) {
            if !placed {
                proof {
                    assert forall|t: int| 0 <= t < before.len() implies (#[trigger] before[t]).0 != key by {
                        assert(before[t] == e[t]);
                        assert(eq_ignore_ascii_case(key, key));
                    }
                }
                let _ = map_insert(&mut storage, name.clone(), profile.clone());
                placed = true;
                proof {
                    f = i as int;
                    assert(is_first_match(e, key, f));
                    assert(e.subrange(f + 1, i + 1).filter(not_ci_named(key)) =~= Seq::empty());
                    assert(profile_entries(storage) =~= e.take(f).push((key, profile)) + e.subrange(
                        f + 1,
                        i + 1,
                    ).filter(not_ci_named(key)));
                }
            } else {
                proof {
                    assert(e.subrange(f + 1, i + 1) =~= e.subrange(f + 1, i as int).push(e[i as int]));
                    e.subrange(f + 1, i as int).lemma_filter_push(e[i as int], not_ci_named(key));
                }
            }
        } else {
            proof {
                assert(eq_ignore_ascii_case(key, key));
                assert forall|t: int| 0 <= t < before.len() implies (#[trigger] before[t]).0 != kv.0@ by {
                    if before[t].0 != key {
                        let x = choose|x: int| 0 <= x < i && before[t].0 == #[trigger] e[x].0;
                        assert(e[x].0 != e[i as int].0);
                    }
                }
            }
            let _ = map_insert(&mut storage, kv.0.clone(), kv.1.clone());
            proof {
                assert(profile_entries(storage) == before.push(e[i as int]));
                assert(e.take(i + 1) =~= e.take(i as int).push(e[i as int]));
                if placed {
                    assert(e.subrange(f + 1, i + 1) =~= e.subrange(f + 1, i as int).push(e[i as int]));
                    e.subrange(f + 1, i as int).lemma_filter_push(e[i as int], not_ci_named(key));
                    assert(profile_entries(storage) =~= e.take(f).push((key, profile)) + e.subrange(
                        f + 1,
                        i + 1,
                    ).filter(not_ci_named(key)));
                }
                assert forall|t: int| 0 <= t < profile_entries(storage).len() implies (#[trigger] profile_entries(
                    storage,
                )[t]).0 == key || exists|x: int| 0 <= x < i + 1 && profile_entries(storage)[t].0 == #[trigger] e[x].0 by {
                    if t == before.len() {
                        assert(profile_entries(storage)[t].0 == e[i as int].0);
                    } else {
                        assert(profile_entries(storage)[t] == before[t]);
                    }
                }
            }
        }
        i = i + 1;
    }
    if !placed {
        proof {
            assert(e.take(n as int) =~= e);
            assert(eq_ignore_ascii_case(key, key));
            assert forall|t: int| 0 <= t < e.len() implies (#[trigger] e[t]).0 != key by {}
        }
        let _ = map_insert(&mut storage, name.clone(), profile.clone());
        proof {
            assert(!exists|k: int| is_first_match(e, key, k));
        }
    } else {
        proof {
            assert(e.subrange(f + 1, n as int) =~= e.skip(f + 1));
            lemma_first_match_unique(e, key, f, choose|k: int| is_first_match(e, key, k));
        }
    }
    let m = map_len(&cfg.accounts);
    let mut accounts = map_new();
    let mut j: usize = 0;
    while j < m
        invariant
            j <= m,
            m == a.len(),
            a == profile_entries(cfg.accounts),
            key == name@,
            forall|x: int, y: int|
                #![trigger a[x], a[y]]
                0 <= x < j && 0 <= y < a.len() && x != y ==> a[x].0 != a[y].0,
            forall|t: int|
                0 <= t < profile_entries(accounts).len() ==> exists|x: int|
                    0 <= x < j && (#[trigger] profile_entries(accounts)[t]).0 == #[trigger] a[x].0,
            profile_entries(accounts) == a.take(j as int).filter(not_ci_named(key)),
        decreases m - j,
    {
        let kv = map_get_index(&cfg.accounts, j).unwrap();
        let ghost before = profile_entries(accounts);
        proof {
            assert(forall|y: int| 0 <= y < a.len() && y != j ==> a[j as int].0 != #[trigger] a[y].0);
            assert(a.take(j + 1) =~= a.take(j as int).push(a[j as int]));
            a.take(j as int).lemma_filter_push(a[j as int], not_ci_named(key));
        }
        if !str_eq_ignore_ascii_case(kv.0.as_str(), name.as_str()) {
            proof {
                assert forall|t: int| 0 <= t < before.len() implies (#[trigger] before[t]).0 != kv.0@ by {
                    let x = choose|x: int| 0 <= x < j && (#[trigger] before[t]).0 == #[trigger] a[x].0;
                    assert(a[x].0 != a[j as int].0);
                }
            }
            let _ = map_insert(&mut accounts, kv.0.clone(), kv.1.clone());
            proof {
                assert forall|t: int| 0 <= t < profile_entries(accounts).len() implies exists|x: int|
                    0 <= x < j + 1 && (#[trigger] profile_entries(accounts)[t]).0 == #[trigger] a[x].0 by {
                    if t == before.len() {
                        assert(profile_entries(accounts)[t].0 == a[j as int].0);
                    } else {
                        assert(profile_entries(accounts)[t] == before[t]);
                        let x = choose|x: int| 0 <= x < j && (#[trigger] before[t]).0 == #[trigger] a[x].0;
                        assert(profile_entries(accounts)[t].0 == a[x].0);
                    }
                }
            }
        }
        j = j + 1;
    }
    proof {
        assert(a.take(m as int) =~= a);
    }
    cfg.storage = storage;
    cfg.accounts = accounts;
    proof {
        lemma_replaced_lookup(e, key, profile);
        let a2 = profile_entries(cfg.accounts);
        assert forall|t: int| 0 <= t < a2.len() implies !eq_ignore_ascii_case((#[trigger] a2[t]).0, key) by {
            a.lemma_filter_pred(not_ci_named(key), t);
        }
    }
}

/// What adding leaves is fixed by the configuration before, the name and the profile alone:
/// two adds of the same profile under the same name give the same configuration, whatever
/// else differed between them (such as a secret stored beside it).
pub proof fn lemma_add_is_determined(before: Config, a1: Config, a2: Config, name: Seq<char>, p: StorageProfile)
    requires
        added(before, a1, name, p),
        added(before, a2, name, p),
    ensures
        a1.version == a2.version,
        profile_entries(a1.storage) == profile_entries(a2.storage),
        profile_entries(a1.accounts) == profile_entries(a2.accounts),
{
}

/// Keeping only the pairs that pass `pred` twice keeps the same pairs as once.
proof fn lemma_filter_twice(e: Seq<(Seq<char>, StorageProfile)>, pred: spec_fn((Seq<char>, StorageProfile)) -> bool)
    ensures
        e.filter(pred).filter(pred) == e.filter(pred),
{
    let f = e.filter(pred);
    assert forall|i: int| 0 <= i < f.len() implies pred(#[trigger] f[i]) by {
        e.lemma_filter_pred(pred, i);
    }
    lemma_filter_all(f, pred);
}

/// Adding a profile under `name` leaves every profile of another name (ignoring ASCII case) in
/// `storage`, in the same order, and keeps one profile of that name: the new one. It stands
/// where the first profile of that name stood, after the same profiles as before, or last
/// when there was none; so `storage` grows by one less than the number of profiles it held
/// under that name, or by one.
pub proof fn lemma_add_keeps_other_profiles(before: Config, after: Config, name: Seq<char>, p: StorageProfile)
    requires
        added(before, after, name, p),
    ensures
        ({
            let e = profile_entries(before.storage);
            let e2 = profile_entries(after.storage);
            &&& e2.filter(not_ci_named(name)) == e.filter(not_ci_named(name))
            &&& e2.len() == e.filter(not_ci_named(name)).len() + 1
            &&& forall|f: int| #[trigger] is_first_match(e, name, f) ==> e2[f] == (name, p) && e2.take(f) == e.take(f)
            &&& (forall|i: int| 0 <= i < e.len() ==> !eq_ignore_ascii_case(#[trigger] e[i].0, name)) ==> e2
                == e.push((name, p))
        }),
{
    let e = profile_entries(before.storage);
    let e2 = profile_entries(after.storage);
    let nc = not_ci_named(name);
    assert(eq_ignore_ascii_case(name, name));
    assert(!nc((name, p)));
    if exists|f: int| is_first_match(e, name, f) {
        let f = choose|f: int| is_first_match(e, name, f);
        let head = e.take(f);
        let tail = e.skip(f + 1);
        assert forall|i: int| 0 <= i < head.len() implies nc(#[trigger] head[i]) by {
            assert(head[i] == e[i]);
        }
        lemma_filter_all(head, nc);
        assert(e =~= head.push(e[f]) + tail);
        Seq::filter_distributes_over_add(head.push(e[f]), tail, nc);
        head.lemma_filter_push(e[f], nc);
        assert(e2 == head.push((name, p)) + tail.filter(nc));
        Seq::filter_distributes_over_add(head.push((name, p)), tail.filter(nc), nc);
        head.lemma_filter_push((name, p), nc);
        lemma_filter_twice(tail, nc);
        assert forall|g: int| #[trigger] is_first_match(e, name, g) implies e2[g] == (name, p) && e2.take(g) == e.take(g) by {
            lemma_first_match_unique(e, name, f, g);
            assert(e2.take(g) =~= e.take(g));
        }
    } else {
        assert forall|i: int| 0 <= i < e.len() implies nc(#[trigger] e[i]) by {
            if eq_ignore_ascii_case(e[i].0, name) {
                lemma_first_match_exists(e, name, i);
            }
        }
        lemma_filter_all(e, nc);
        e.lemma_filter_push((name, p), nc);
    }
}

/// The stored name of the profile to remove, found ignoring ASCII case; `not_found` if none.
pub fn plan_remove(cfg: &Config, name: &str) -> (r: Result<String, Error>)
    ensures
        match config_find(*cfg, name@) {
            Some(kv) => r matches Ok(k) && k@ == kv.0,
            None => r matches Err(e) && e.code == ErrorCode::NotFound && e.message@ == "Profile '"@ + name@
                + "' does not exist."@,
        },
{
    match cfg.find(name) {
        Some((k, _)) => Ok(k.clone()),
        None => {
            let mut msg = owned("Profile '");
            push_str(&mut msg, name);
            push_str(&mut msg, "' does not exist.");
            Err(Error::not_found(msg))
        },
    }
}

/// `e2` is `e` without its pair named exactly `key`, the others in their order.
pub open spec fn without_key(e: Seq<(Seq<char>, StorageProfile)>, e2: Seq<(Seq<char>, StorageProfile)>, key: Seq<char>) -> bool {
    ||| (exists|i: int| 0 <= i < e.len() && (#[trigger] e[i]).0 == key && e2 == e.remove(i))
    ||| (!has_key(e, key) && e2 == e)
}

/// `after` is `before` without the profiles named exactly `key`, in `storage` and in `accounts`.
pub open spec fn removed(before: Config, after: Config, key: Seq<char>) -> bool {
    &&& after.version == before.version
    &&& without_key(profile_entries(before.storage), profile_entries(after.storage), key)
    &&& without_key(profile_entries(before.accounts), profile_entries(after.accounts), key)
    &&& !has_key(profile_entries(after.storage), key)
    &&& !has_key(profile_entries(after.accounts), key)
}

/// Removes the profiles named exactly `key` from `storage` and from `accounts`; the others keep
/// their order.
pub fn apply_remove(cfg: &mut Config, key: &String)
    ensures
        removed(*old(cfg), *final(cfg), key@),
{
    let _ = map_shift_remove(&mut cfg.storage, key);
    let _ = map_shift_remove(&mut cfg.accounts, key);
}

/// Adding a profile under a name that no profile has, ignoring ASCII case, and then removing
/// that name gives back the configuration as it was: the name then finds the added profile, so
/// removal takes exactly that one.
pub proof fn lemma_add_then_remove(before: Config, mid: Config, after: Config, name: Seq<char>, p: StorageProfile)
    requires
        config_find(before, name) is None,
        added(before, mid, name, p),
        removed(mid, after, name),
    ensures
        config_find(mid, name) == Some((name, p)),
        after.version == before.version,
        profile_entries(after.storage) == profile_entries(before.storage),
        profile_entries(after.accounts) == profile_entries(before.accounts),
{
    let e = profile_entries(before.storage);
    let a = profile_entries(before.accounts);
    lemma_lookup_none(e, name);
    lemma_lookup_none(a, name);
    lemma_replaced_lookup(e, name, p);
    assert(eq_ignore_ascii_case(name, name));
    assert(!exists|k: int| is_first_match(e, name, k));
    let e1 = profile_entries(mid.storage);
    assert(e1 == e.push((name, p)));
    lemma_filter_all(a, not_ci_named(name));
    let a1 = profile_entries(mid.accounts);
    assert(a1 == a);
    if exists|i: int| 0 <= i < e1.len() && (#[trigger] e1[i]).0 == name && profile_entries(after.storage) == e1.remove(i) {
        let i = choose|i: int| 0 <= i < e1.len() && (#[trigger] e1[i]).0 == name && profile_entries(after.storage)
            == e1.remove(i);
        if i < e.len() {
            assert(e1[i] == e[i]);
        }
        assert(e1.remove(i) =~= e);
    } else {
        assert(e1[e.len() as int].0 == name);
    }
    if exists|i: int| 0 <= i < a1.len() && (#[trigger] a1[i]).0 == name && profile_entries(after.accounts) == a1.remove(i) {
        let i = choose|i: int| 0 <= i < a1.len() && (#[trigger] a1[i]).0 == name && profile_entries(after.accounts)
            == a1.remove(i);
        assert(!eq_ignore_ascii_case(a[i].0, name));
    }
}

/// An answer to the removal prompt confirms it when it is `y` or `Y`, surrounding whitespace
/// aside.
pub fn confirms_removal(answer: &str) -> (r: bool)
    ensures
        r == eq_ignore_ascii_case(trimmed(answer@), "y"@),
{
    str_eq_ignore_ascii_case(trim(answer), "y")
}

/// What `accounts list` says of a profile: `configured`, or with `check` whether a read token
/// could be had.
pub fn list_status(check: bool, token_ok: bool) -> (r: &'static str)
    ensures
        r@ == if !check {
            "configured"@
        } else if token_ok {
            "valid"@
        } else {
            "unreachable_or_no_az"@
        },
{
    if !check {
        "configured"
    } else if token_ok {
        "valid"
    } else {
        "unreachable_or_no_az"
    }
}

} // verus!
