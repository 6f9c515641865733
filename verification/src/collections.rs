//! The persistent collections of the `im` crate that version solving keeps its state in.
//! Each is used at one item type, and each operation that the solver calls has a
//! contract over the contents of the collection.

use vstd::prelude::*;
use crate::solution::{Mark, Outcome};

verus! {

#[verifier::external_type_specification]
#[verifier::external_body]
#[verifier::reject_recursive_types(A)]
pub struct ExImVector<A>(im::Vector<A>);

#[verifier::external_type_specification]
#[verifier::external_body]
#[verifier::reject_recursive_types(K)]
#[verifier::reject_recursive_types(V)]
#[verifier::reject_recursive_types(S)]
pub struct ExImHashMap<K, V, S>(im::HashMap<K, V, S>);

/// A persistent map from indices to indices.
pub type IndexMap = im::HashMap<usize, usize>;

/// A persistent map from indices to outcomes.
pub type OutcomeMap = im::HashMap<usize, Outcome>;

/// A persistent map from index pairs to marks.
pub type MarkMap = im::HashMap<(usize, usize), Mark>;

/// The items of a persistent vector of indices, from front to back.
pub uninterp spec fn index_stack(v: im::Vector<usize>) -> Seq<usize>;

/// The items of a persistent vector of index pairs, from front to back.
pub uninterp spec fn pair_stack(v: im::Vector<(usize, usize)>) -> Seq<(usize, usize)>;

/// The entries of a persistent map from indices to indices.
pub uninterp spec fn index_map(m: im::HashMap<usize, usize>) -> Map<usize, usize>;

/// The entries of a persistent map from indices to outcomes.
pub uninterp spec fn outcome_map(m: im::HashMap<usize, Outcome>) -> Map<usize, Outcome>;

/// The entries of a persistent map from index pairs to marks.
pub uninterp spec fn mark_map(m: im::HashMap<(usize, usize), Mark>) -> Map<(usize, usize), Mark>;

/// The empty map from indices to indices.
pub open spec fn empty_index_map() -> Map<usize, usize> {
    Map::empty()
}

/// The empty map from indices to outcomes.
pub open spec fn empty_outcome_map() -> Map<usize, Outcome> {
    Map::empty()
}

/// The empty map from index pairs to marks.
pub open spec fn empty_mark_map() -> Map<(usize, usize), Mark> {
    Map::empty()
}

/// Calls `im::Vector::new`: an empty vector.
#[verifier::external_body]
pub(crate) fn index_stack_new() -> (r: im::Vector<usize>)
    ensures
        index_stack(r) == Seq::<usize>::empty(),
{
    im::Vector::new()
}

/// Calls `im::Vector::push_back`: the item is added at the back.
#[verifier::external_body]
pub(crate) fn index_stack_push(v: &mut im::Vector<usize>, x: usize)
    ensures
        index_stack(*final(v)) == index_stack(*old(v)).push(x),
{
    v.push_back(x)
}

/// Calls `im::Vector::pop_back`: the back item is removed and returned; nothing happens to
/// an empty vector.
#[verifier::external_body]
pub(crate) fn index_stack_pop(v: &mut im::Vector<usize>) -> (r: Option<usize>)
    ensures
        index_stack(*old(v)).len() == 0 ==> r is None && index_stack(*final(v)) == index_stack(*old(v)),
        index_stack(*old(v)).len() > 0 ==> r == Some(index_stack(*old(v)).last())
            && index_stack(*final(v)) == index_stack(*old(v)).drop_last(),
{
    v.pop_back()
}

/// Calls `<im::Vector as Clone>::clone`: the copy has the same items.
#[verifier::external_body]
pub(crate) fn index_stack_clone(v: &im::Vector<usize>) -> (r: im::Vector<usize>)
    ensures
        index_stack(r) == index_stack(*v),
{
    v.clone()
}

/// Calls `im::Vector::len`: the number of items.
#[verifier::external_body]
pub(crate) fn index_stack_len(v: &im::Vector<usize>) -> (r: usize)
    ensures
        r == index_stack(*v).len(),
{
    v.len()
}

/// Calls `im::Vector::get`: the item at `i`, if `i` is in range.
#[verifier::external_body]
pub(crate) fn index_stack_get(v: &im::Vector<usize>, i: usize) -> (r: Option<usize>)
    ensures
        i < index_stack(*v).len() ==> r == Some(index_stack(*v)[i as int]),
        i >= index_stack(*v).len() ==> r is None,
{
    v.get(i).copied()
}

/// Calls `im::Vector::new`: an empty vector.
#[verifier::external_body]
pub(crate) fn pair_stack_new() -> (r: im::Vector<(usize, usize)>)
    ensures
        pair_stack(r) == Seq::<(usize, usize)>::empty(),
{
    im::Vector::new()
}

/// Calls `im::Vector::push_back`: the item is added at the back.
#[verifier::external_body]
pub(crate) fn pair_stack_push(v: &mut im::Vector<(usize, usize)>, x: (usize, usize))
    ensures
        pair_stack(*final(v)) == pair_stack(*old(v)).push(x),
{
    v.push_back(x)
}

/// Calls `im::Vector::pop_back`: the back item is removed and returned; nothing happens to
/// an empty vector.
#[verifier::external_body]
pub(crate) fn pair_stack_pop(v: &mut im::Vector<(usize, usize)>) -> (r: Option<(usize, usize)>)
    ensures
        pair_stack(*old(v)).len() == 0 ==> r is None && pair_stack(*final(v)) == pair_stack(*old(v)),
        pair_stack(*old(v)).len() > 0 ==> r == Some(pair_stack(*old(v)).last())
            && pair_stack(*final(v)) == pair_stack(*old(v)).drop_last(),
{
    v.pop_back()
}

/// Calls `<im::Vector as Clone>::clone`: the copy has the same items.
#[verifier::external_body]
pub(crate) fn pair_stack_clone(v: &im::Vector<(usize, usize)>) -> (r: im::Vector<(usize, usize)>)
    ensures
        pair_stack(r) == pair_stack(*v),
{
    v.clone()
}

/// Calls `im::HashMap::new`: an empty map.
#[verifier::external_body]
pub(crate) fn index_map_new() -> (r: IndexMap)
    ensures
        index_map(r) == empty_index_map(),
{
    im::HashMap::new()
}

/// Calls `im::HashMap::get`: the value at `k`, if there is one.
#[verifier::external_body]
pub(crate) fn index_map_get(m: &IndexMap, k: usize) -> (r: Option<usize>)
    ensures
        index_map(*m).contains_key(k) ==> r == Some(index_map(*m)[k]),
        !index_map(*m).contains_key(k) ==> r is None,
{
    m.get(&k).copied()
}

/// Calls `im::HashMap::insert`: `k` now maps to `x`.
#[verifier::external_body]
pub(crate) fn index_map_insert(m: &mut IndexMap, k: usize, x: usize)
    ensures
        index_map(*final(m)) == index_map(*old(m)).insert(k, x),
{
    m.insert(k, x);
}

/// Calls `im::HashMap::new`: an empty map.
#[verifier::external_body]
pub(crate) fn outcome_map_new() -> (r: OutcomeMap)
    ensures
        outcome_map(r) == empty_outcome_map(),
{
    im::HashMap::new()
}

/// Calls `im::HashMap::get`: the value at `k`, if there is one.
#[verifier::external_body]
pub(crate) fn outcome_map_get(m: &OutcomeMap, k: usize) -> (r: Option<Outcome>)
    ensures
        outcome_map(*m).contains_key(k) ==> r == Some(outcome_map(*m)[k]),
        !outcome_map(*m).contains_key(k) ==> r is None,
{
    m.get(&k).copied()
}

/// Calls `im::HashMap::insert`: `k` now maps to `x`.
#[verifier::external_body]
pub(crate) fn outcome_map_insert(m: &mut OutcomeMap, k: usize, x: Outcome)
    ensures
        outcome_map(*final(m)) == outcome_map(*old(m)).insert(k, x),
{
    m.insert(k, x);
}

/// Calls `<im::HashMap as Clone>::clone`: the copy has the same entries.
#[verifier::external_body]
pub(crate) fn outcome_map_clone(m: &OutcomeMap) -> (r: OutcomeMap)
    ensures
        outcome_map(r) == outcome_map(*m),
{
    m.clone()
}

/// Calls `im::HashMap::new`: an empty map.
#[verifier::external_body]
pub(crate) fn mark_map_new() -> (r: MarkMap)
    ensures
        mark_map(r) == empty_mark_map(),
{
    im::HashMap::new()
}

/// Calls `im::HashMap::get`: the value at `k`, if there is one.
#[verifier::external_body]
pub(crate) fn mark_map_get(m: &MarkMap, k: (usize, usize)) -> (r: Option<Mark>)
    ensures
        mark_map(*m).contains_key(k) ==> r == Some(mark_map(*m)[k]),
        !mark_map(*m).contains_key(k) ==> r is None,
{
    m.get(&k).copied()
}

/// Calls `im::HashMap::insert`: `k` now maps to `x`.
#[verifier::external_body]
pub(crate) fn mark_map_insert(m: &mut MarkMap, k: (usize, usize), x: Mark)
    ensures
        mark_map(*final(m)) == mark_map(*old(m)).insert(k, x),
{
    m.insert(k, x);
}

/// Calls `<im::HashMap as Clone>::clone`: the copy has the same entries.
#[verifier::external_body]
pub(crate) fn mark_map_clone(m: &MarkMap) -> (r: MarkMap)
    ensures
        mark_map(r) == mark_map(*m),
{
    m.clone()
}

/// Calls `im::HashMap::iter` and collects the entries, in the map's own order (which the
/// contract leaves open): every entry once, and nothing else.
#[verifier::external_body]
pub(crate) fn mark_map_entries(m: &MarkMap) -> (r: Vec<((usize, usize), Mark)>)
    ensures
        forall|i: int| 0 <= i < r@.len() ==> #[trigger] mark_map(*m).contains_key(r@[i].0) && mark_map(*m)[r@[i].0] == r@[i].1,
        forall|k: (usize, usize)| #[trigger] mark_map(*m).contains_key(k) ==> exists|i: int| 0 <= i < r@.len() && r@[i].0 == k,
        forall|i: int, j: int| 0 <= i < r@.len() && 0 <= j < r@.len() && i != j ==> r@[i].0 != r@[j].0,
{
    m.iter().map(|(k, v)| (*k, *v)).collect()
}

} // verus!
