//! The insertion-ordered map (indexmap's `IndexMap`) that holds storage profiles by name.
//!
//! Its contents are named `profile_entries`: the key-value pairs in the map's order, each key
//! by its characters. The wrappers below state what each `IndexMap` method does to them.
use vstd::prelude::*;
use indexmap::IndexMap;
use crate::config::StorageProfile;

verus! {

#[verifier::external_type_specification]
#[verifier::external_body]
#[verifier::reject_recursive_types(K)]
#[verifier::reject_recursive_types(V)]
#[verifier::reject_recursive_types(S)]
pub struct ExIndexMap<K, V, S>(IndexMap<K, V, S>);

/// The pairs of a profile map, in the map's order, each name by its characters.
pub uninterp spec fn profile_entries(m: IndexMap<String, StorageProfile>) -> Seq<(Seq<char>, StorageProfile)>;

/// Some pair of `e` has the name `k`.
pub open spec fn has_key(e: Seq<(Seq<char>, StorageProfile)>, k: Seq<char>) -> bool {
    exists|i: int| 0 <= i < e.len() && (#[trigger] e[i]).0 == k
}

/// No name occurs twice in `e` (as in every `IndexMap`).
pub open spec fn keys_distinct(e: Seq<(Seq<char>, StorageProfile)>) -> bool {
    forall|i: int, j: int| 0 <= i < j < e.len() ==> (#[trigger] e[i]).0 != (#[trigger] e[j]).0
}

/// `IndexMap::new`: a map with no pairs.
#[verifier::external_body]
pub(crate) fn map_new() -> (m: IndexMap<String, StorageProfile>)
    ensures
        profile_entries(m) == Seq::<(Seq<char>, StorageProfile)>::empty(),
        keys_distinct(profile_entries(m)),
{
    IndexMap::new()
}

/// `IndexMap::len`: the number of pairs.
#[verifier::external_body]
pub(crate) fn map_len(m: &IndexMap<String, StorageProfile>) -> (n: usize)
    ensures
        n == profile_entries(*m).len(),
{
    m.len()
}

/// `IndexMap::get_index`: the pair at position `i` in the map's order, if there is one. Its name
/// is held by no other pair of the map, as no key occurs twice in an `IndexMap`.
#[verifier::external_body]
pub(crate) fn map_get_index(m: &IndexMap<String, StorageProfile>, i: usize) -> (r: Option<(&String, &StorageProfile)>)
    ensures
        r is Some <==> i < profile_entries(*m).len(),
        r matches Some(kv) ==> kv.0@ == profile_entries(*m)[i as int].0 && *kv.1 == profile_entries(*m)[i as int].1,
        r matches Some(kv) ==> forall|j: int|
            0 <= j < profile_entries(*m).len() && j != i ==> (#[trigger] profile_entries(*m)[j]).0 != kv.0@,
{
    m.get_index(i)
}

/// `IndexMap::contains_key`: whether some pair has the name `key`.
#[verifier::external_body]
pub(crate) fn map_contains_key(m: &IndexMap<String, StorageProfile>, key: &String) -> (r: bool)
    ensures
        r == has_key(profile_entries(*m), key@),
{
    m.contains_key(key)
}

/// `IndexMap::insert`: a pair with the name `key` gets `value` in place; otherwise the pair
/// `(key, value)` goes last. The value that was replaced comes back. No name occurs twice
/// afterwards.
#[verifier::external_body]
pub(crate) fn map_insert(m: &mut IndexMap<String, StorageProfile>, key: String, value: StorageProfile) -> (r: Option<StorageProfile>)
    ensures
        match r {
            Some(prev) => exists|i: int|
                0 <= i < profile_entries(*old(m)).len() && (#[trigger] profile_entries(*old(m))[i]).0 == key@
                    && profile_entries(*old(m))[i].1 == prev && profile_entries(*final(m))
                    == profile_entries(*old(m)).update(i, (key@, value)),
            None => !has_key(profile_entries(*old(m)), key@) && profile_entries(*final(m)) == profile_entries(
                *old(m),
            ).push((key@, value)),
        },
        keys_distinct(profile_entries(*final(m))),
{
    m.insert(key, value)
}

/// `IndexMap::shift_remove`: the pair with the name `key` leaves, the pairs after it move up
/// one place, and its value comes back. Afterwards no pair has that name, and no name occurs
/// twice.
#[verifier::external_body]
pub(crate) fn map_shift_remove(m: &mut IndexMap<String, StorageProfile>, key: &String) -> (r: Option<StorageProfile>)
    ensures
        match r {
            Some(prev) => exists|i: int|
                0 <= i < profile_entries(*old(m)).len() && (#[trigger] profile_entries(*old(m))[i]).0 == key@
                    && profile_entries(*old(m))[i].1 == prev && profile_entries(*final(m))
                    == profile_entries(*old(m)).remove(i),
            None => !has_key(profile_entries(*old(m)), key@) && profile_entries(*final(m)) == profile_entries(
                *old(m),
            ),
        },
        !has_key(profile_entries(*final(m)), key@),
        keys_distinct(profile_entries(*final(m))),
{
    m.shift_remove(key)
}

} // verus!
