//! Hash maps and sets keyed by identifiers, built on `fxhash`'s hasher.
//!
//! The containers are `std::collections::HashMap`/`HashSet` with
//! `fxhash::FxBuildHasher` (the `fxhash::FxHashMap`/`FxHashSet` aliases).
//! Each function below makes one call on such a container; its contract
//! states what the standard library documents for that call, over the
//! container's view. Keys are integers, whose `Eq` and `Hash` are the
//! primitive ones.
use vstd::prelude::*;
use fxhash::{FxHashMap, FxHashSet, FxHasher};

verus! {

#[verifier::external_type_specification]
#[verifier::external_body]
pub struct ExFxHasher(FxHasher);

#[verifier::external_type_specification]
#[verifier::external_body]
#[verifier::reject_recursive_types(H)]
pub struct ExBuildHasherDefault<H>(std::hash::BuildHasherDefault<H>);

/// `FxHashMap::default()`: a map with no entries.
#[verifier::external_body]
pub(crate) fn map_new<V>() -> (r: FxHashMap<usize, V>)
    ensures
        r@.dom() == Set::<usize>::empty(),
{
    FxHashMap::default()
}

/// `HashMap::get`: the value stored under `k`, if there is one.
#[verifier::external_body]
pub(crate) fn map_get<V>(m: &FxHashMap<usize, V>, k: usize) -> (r: Option<&V>)
    ensures
        match r {
            Some(v) => m@.contains_key(k) && *v == m@[k],
            None => !m@.contains_key(k),
        },
{
    m.get(&k)
}

/// `HashMap::contains_key`: whether `k` has an entry.
#[verifier::external_body]
pub(crate) fn map_contains<V>(m: &FxHashMap<usize, V>, k: usize) -> (r: bool)
    ensures
        r == m@.contains_key(k),
{
    m.contains_key(&k)
}

/// `HashMap::insert`: stores `v` under `k` and hands back the value it replaced.
#[verifier::external_body]
pub(crate) fn map_insert<V>(m: &mut FxHashMap<usize, V>, k: usize, v: V) -> (r: Option<V>)
    ensures
        final(m)@ == old(m)@.insert(k, v),
        match r {
            Some(x) => old(m)@.contains_key(k) && x == old(m)@[k],
            None => !old(m)@.contains_key(k),
        },
{
    m.insert(k, v)
}

/// `HashMap::remove`: takes out the entry of `k` and hands back its value.
#[verifier::external_body]
pub(crate) fn map_remove<V>(m: &mut FxHashMap<usize, V>, k: usize) -> (r: Option<V>)
    ensures
        final(m)@ == old(m)@.remove(k),
        match r {
            Some(x) => old(m)@.contains_key(k) && x == old(m)@[k],
            None => !old(m)@.contains_key(k),
        },
{
    m.remove(&k)
}

/// `HashMap::keys`, collected: every key once, in the map's own order.
#[verifier::external_body]
pub(crate) fn map_keys<V>(m: &FxHashMap<usize, V>) -> (r: Vec<usize>)
    ensures
        r@.to_set() == m@.dom(),
        r@.no_duplicates(),
{
    m.keys().copied().collect()
}

/// `HashMap::len`: the number of entries.
#[verifier::external_body]
pub(crate) fn map_len<V>(m: &FxHashMap<usize, V>) -> (r: usize)
    ensures
        r == m@.dom().len(),
{
    m.len()
}

/// `HashMap::is_empty`: whether there are no entries.
#[verifier::external_body]
pub(crate) fn map_is_empty<V>(m: &FxHashMap<usize, V>) -> (r: bool)
    ensures
        r == (m@.dom() == Set::<usize>::empty()),
{
    m.is_empty()
}

/// `HashMap::clear`: removes every entry.
#[verifier::external_body]
pub(crate) fn map_clear<V>(m: &mut FxHashMap<usize, V>)
    ensures
        final(m)@.dom() == Set::<usize>::empty(),
{
    m.clear()
}

/// `FxHashSet::default()`: a set with no members.
#[verifier::external_body]
pub(crate) fn set_new() -> (r: FxHashSet<usize>)
    ensures
        r@ == Set::<usize>::empty(),
{
    FxHashSet::default()
}

/// `HashSet::contains`: membership of `x`.
#[verifier::external_body]
pub(crate) fn set_contains(s: &FxHashSet<usize>, x: usize) -> (r: bool)
    ensures
        r == s@.contains(x),
{
    s.contains(&x)
}

/// `HashSet::insert`: adds `x`; true when `x` was not yet a member.
#[verifier::external_body]
pub(crate) fn set_insert(s: &mut FxHashSet<usize>, x: usize) -> (r: bool)
    ensures
        final(s)@ == old(s)@.insert(x),
        r == !old(s)@.contains(x),
{
    s.insert(x)
}

/// `HashSet::remove`: removes `x`; true when `x` was a member.
#[verifier::external_body]
pub(crate) fn set_remove(s: &mut FxHashSet<usize>, x: usize) -> (r: bool)
    ensures
        final(s)@ == old(s)@.remove(x),
        r == old(s)@.contains(x),
{
    s.remove(&x)
}

/// `HashSet::iter`, collected: every member once, in the set's own order.
#[verifier::external_body]
pub(crate) fn set_to_vec(s: &FxHashSet<usize>) -> (r: Vec<usize>)
    ensures
        r@.to_set() == s@,
        r@.no_duplicates(),
{
    s.iter().copied().collect()
}

/// `HashSet::is_empty`: whether there are no members.
#[verifier::external_body]
pub(crate) fn set_is_empty(s: &FxHashSet<usize>) -> (r: bool)
    ensures
        r == (s@ == Set::<usize>::empty()),
{
    s.is_empty()
}

} // verus!

verus! {

/// `HashMap::get` on a map keyed by pairs of integers.
#[verifier::external_body]
pub(crate) fn pmap_get<V>(m: &FxHashMap<(usize, usize), V>, k: (usize, usize)) -> (r: Option<&V>)
    ensures
        match r {
            Some(v) => m@.contains_key(k) && *v == m@[k],
            None => !m@.contains_key(k),
        },
{
    m.get(&k)
}

/// `HashMap::insert` on a map keyed by pairs of integers.
#[verifier::external_body]
pub(crate) fn pmap_insert<V>(m: &mut FxHashMap<(usize, usize), V>, k: (usize, usize), v: V)
    ensures
        final(m)@ == old(m)@.insert(k, v),
{
    m.insert(k, v);
}

/// `HashMap::len` on a map keyed by pairs of integers.
#[verifier::external_body]
pub(crate) fn pmap_len<V>(m: &FxHashMap<(usize, usize), V>) -> (r: usize)
    ensures
        r == m@.dom().len(),
{
    m.len()
}

/// `HashMap::clear` on a map keyed by pairs of integers.
#[verifier::external_body]
pub(crate) fn pmap_clear<V>(m: &mut FxHashMap<(usize, usize), V>)
    ensures
        final(m)@.dom() == Set::<(usize, usize)>::empty(),
{
    m.clear()
}

/// `FxHashMap::default()` keyed by pairs of integers: a map with no entries.
#[verifier::external_body]
pub(crate) fn pmap_new<V>() -> (r: FxHashMap<(usize, usize), V>)
    ensures
        r@.dom() == Set::<(usize, usize)>::empty(),
{
    FxHashMap::default()
}

} // verus!
