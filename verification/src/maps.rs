//! The hash maps and sets of the library. They are `ahash::HashMap`s and `ahash::HashSet`s,
//! that is the standard `HashMap` and `HashSet` with the `ahash` hasher; the operations below
//! call the standard methods on them. The hasher only decides where items are stored, not
//! which are present.

use vstd::prelude::*;

verus! {

/// The hasher builder of `ahash`, held by the library's maps.
#[verifier::external_type_specification]
#[verifier::external_body]
pub struct ExAHashRandomState(ahash::RandomState);

/// An empty map, made by `Default::default` (a fresh `ahash::RandomState`).
pub(crate) fn new_map<V>() -> (m: ahash::HashMap<u32, V>)
    ensures
        m@ == Map::<u32, V>::empty(),
{
    ahash::HashMap::<u32, V>::default()
}

/// Calls `HashMap::insert` on an `ahash` map: afterwards `k` maps to `v`, and every other key
/// keeps its value. The hasher only decides where entries are stored, not which are present.
#[verifier::external_body]
pub(crate) fn map_insert<V>(m: &mut ahash::HashMap<u32, V>, k: u32, v: V)
    ensures
        final(m)@ == old(m)@.insert(k, v),
{
    m.insert(k, v);
}

/// Calls `HashMap::get` on an `ahash` map: the value stored for `k`, if there is one.
#[verifier::external_body]
pub(crate) fn map_get<'a, V>(m: &'a ahash::HashMap<u32, V>, k: u32) -> (r: Option<&'a V>)
    ensures
        match r {
            Some(v) => m@.contains_key(k) && *v == m@[k],
            None => !m@.contains_key(k),
        },
{
    m.get(&k)
}

/// Calls `HashMap::remove` on an `ahash` map: `k` no longer maps to anything, and its former
/// value, if there was one, is returned.
#[verifier::external_body]
pub(crate) fn map_remove<V>(m: &mut ahash::HashMap<u32, V>, k: u32) -> (r: Option<V>)
    ensures
        final(m)@ == old(m)@.remove(k),
        match r {
            Some(v) => old(m)@.contains_key(k) && v == old(m)@[k],
            None => !old(m)@.contains_key(k),
        },
{
    m.remove(&k)
}

/// Calls `HashMap::len` on an `ahash` map: the number of keys.
#[verifier::external_body]
pub(crate) fn map_len<V>(m: &ahash::HashMap<u32, V>) -> (r: usize)
    ensures
        r as nat == m@.len(),
{
    m.len()
}

/// An empty set, made by `Default::default` (a fresh `ahash::RandomState`).
pub(crate) fn new_set() -> (s: ahash::HashSet<u32>)
    ensures
        s@ == Set::<u32>::empty(),
{
    ahash::HashSet::<u32>::default()
}

/// Calls `HashSet::insert` on an `ahash` set: afterwards `k` is a member; the result tells
/// whether it was not one before.
#[verifier::external_body]
pub(crate) fn set_insert(s: &mut ahash::HashSet<u32>, k: u32) -> (r: bool)
    ensures
        final(s)@ == old(s)@.insert(k),
        r == !old(s)@.contains(k),
{
    s.insert(k)
}

/// Calls `HashSet::contains` on an `ahash` set.
#[verifier::external_body]
pub(crate) fn set_contains(s: &ahash::HashSet<u32>, k: u32) -> (r: bool)
    ensures
        r == s@.contains(k),
{
    s.contains(&k)
}

/// Walks an `ahash` set with `HashSet::iter` and collects its members, each once. The order
/// of the walk depends on the hasher's random seed and is not stated.
#[verifier::external_body]
pub(crate) fn set_members(s: &ahash::HashSet<u32>) -> (r: Vec<u32>)
    ensures
        r@.to_set() == s@,
        r@.no_duplicates(),
{
    s.iter().copied().collect()
}

} // verus!
