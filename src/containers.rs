//! The outside collections that hold the tape's node order and adjacency.
use ordered_hash_map::OrderedHashMap;
use sorted_vec::SortedVec;
use vstd::prelude::*;

verus! {

#[verifier::external_type_specification]
#[verifier::external_body]
#[verifier::reject_recursive_types(T)]
pub struct ExSortedVec<T: Ord>(SortedVec<T>);

#[verifier::external_type_specification]
#[verifier::external_body]
#[verifier::reject_recursive_types(K)]
#[verifier::reject_recursive_types(V)]
#[verifier::reject_recursive_types(S)]
pub struct ExOrderedHashMap<K, V, S>(OrderedHashMap<K, V, S>);

#[verifier::external_type_specification]
#[verifier::external_body]
pub struct ExDefaultHashBuilder(ordered_hash_map::ordered_map::DefaultHashBuilder);

/// A map from a node id to a list of node ids.
pub type IdListMap = OrderedHashMap<u64, Vec<u64>>;

/// What a sorted vector of node ids holds, in its order.
pub uninterp spec fn sorted_items(v: SortedVec<u64>) -> Seq<u64>;

/// What an id-to-ids map holds, as a map from key to list.
pub uninterp spec fn map_entries(m: IdListMap) -> Map<u64, Seq<u64>>;

/// Relies on `SortedVec::new`: a new sorted vector is empty.
#[verifier::external_body]
pub(crate) fn sorted_new() -> (r: SortedVec<u64>)
    ensures
        sorted_items(r) == Seq::<u64>::empty(),
{
    SortedVec::new()
}

/// Relies on `SortedVec::push`: an element no smaller than the current last
/// element is appended at the back.
#[verifier::external_body]
pub(crate) fn sorted_push(v: &mut SortedVec<u64>, x: u64)
    requires
        sorted_items(*old(v)).len() == 0 || sorted_items(*old(v)).last() <= x,
    ensures
        sorted_items(*final(v)) == sorted_items(*old(v)).push(x),
{
    let _ = v.push(x);
}

/// Relies on `SortedVec::clear`: afterwards the vector is empty.
#[verifier::external_body]
pub(crate) fn sorted_clear(v: &mut SortedVec<u64>)
    ensures
        sorted_items(*final(v)) == Seq::<u64>::empty(),
{
    v.clear()
}

/// Relies on `SortedVec`'s `Deref` to `Vec`: the underlying vector holds the
/// items in their sorted order.
#[verifier::external_body]
pub(crate) fn sorted_as_vec(v: &SortedVec<u64>) -> (r: &Vec<u64>)
    ensures
        r@ == sorted_items(*v),
{
    &**v
}

/// Relies on `OrderedHashMap::new`: a new map has no entries.
#[verifier::external_body]
pub(crate) fn map_new() -> (r: IdListMap)
    ensures
        map_entries(r).dom() == Set::<u64>::empty(),
{
    OrderedHashMap::new()
}

/// Relies on `OrderedHashMap::contains_key`.
#[verifier::external_body]
pub(crate) fn map_contains(m: &IdListMap, k: u64) -> (r: bool)
    ensures
        r == map_entries(*m).contains_key(k),
{
    m.contains_key(&k)
}

/// Relies on `OrderedHashMap::get`: the value stored under the key, if any.
#[verifier::external_body]
pub(crate) fn map_get(m: &IdListMap, k: u64) -> (r: Option<&Vec<u64>>)
    ensures
        r.is_some() == map_entries(*m).contains_key(k),
        r.is_some() ==> r.unwrap()@ == map_entries(*m)[k],
{
    m.get(&k)
}

/// Relies on `OrderedHashMap::insert`: the key is bound to the new value,
/// replacing any old one; other keys are untouched.
#[verifier::external_body]
pub(crate) fn map_insert(m: &mut IdListMap, k: u64, v: Vec<u64>)
    ensures
        map_entries(*final(m)) == map_entries(*old(m)).insert(k, v@),
{
    let _ = m.insert(k, v);
}

/// Relies on `OrderedHashMap::clear`: afterwards the map has no entries.
#[verifier::external_body]
pub(crate) fn map_clear(m: &mut IdListMap)
    ensures
        map_entries(*final(m)).dom() == Set::<u64>::empty(),
{
    m.clear()
}

} // verus!
