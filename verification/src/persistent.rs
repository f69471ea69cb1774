//! The persistent collections of `im` that the lane buffer keeps its state in, with what the
//! buffer relies on of each method it calls.
use vstd::prelude::*;
use crate::buffer::{Delta, GraphSnapshot};
use crate::chunk::Chunk;

verus! {

#[verifier::external_type_specification]
#[verifier::external_body]
#[verifier::reject_recursive_types(A)]
pub struct ExVector<A>(im::Vector<A>);

#[verifier::external_type_specification]
#[verifier::external_body]
#[verifier::reject_recursive_types(K)]
#[verifier::reject_recursive_types(V)]
pub struct ExOrdMap<K, V>(im::OrdMap<K, V>);

/// What an `im::Vector` of lanes holds, front to back.
pub uninterp spec fn lane_items(v: im::Vector<Chunk>) -> Seq<Chunk>;

/// What an `im::Vector` of parent aliases holds, front to back.
pub uninterp spec fn parent_items(v: im::Vector<u32>) -> Seq<u32>;

/// What an `im::Vector` of deltas holds, front to back.
pub uninterp spec fn delta_items(v: im::Vector<Delta>) -> Seq<Delta>;

/// What an `im::Vector` of snapshots holds, front to back.
pub uninterp spec fn snapshot_items(v: im::Vector<GraphSnapshot>) -> Seq<GraphSnapshot>;

/// What an `im::OrdMap` of checkpoints holds.
pub uninterp spec fn checkpoint_entries(m: im::OrdMap<usize, GraphSnapshot>) -> Map<usize, GraphSnapshot>;

// ---- im::Vector<Chunk> ----

/// `im::Vector::new`: an empty vector.
#[verifier::external_body]
pub(crate) fn lanes_new() -> (v: im::Vector<Chunk>)
    ensures
        lane_items(v) == Seq::<Chunk>::empty(),
{
    im::Vector::new()
}

/// `im::Vector::len`: the number of items.
#[verifier::external_body]
pub(crate) fn lanes_len(v: &im::Vector<Chunk>) -> (n: usize)
    ensures
        n == lane_items(*v).len(),
{
    v.len()
}

/// `Index<usize>` of `im::Vector`: the item at `index`, copied out.
#[verifier::external_body]
pub(crate) fn lanes_at(v: &im::Vector<Chunk>, index: usize) -> (c: Chunk)
    requires
        index < lane_items(*v).len(),
    ensures
        c == lane_items(*v)[index as int],
{
    v[index]
}

/// `im::Vector::set`: replaces the item at `index`.
#[verifier::external_body]
pub(crate) fn lanes_set(v: &mut im::Vector<Chunk>, index: usize, c: Chunk)
    requires
        index < lane_items(*old(v)).len(),
    ensures
        lane_items(*final(v)) == lane_items(*old(v)).update(index as int, c),
{
    v.set(index, c);
}

/// `im::Vector::push_back`: appends an item.
#[verifier::external_body]
pub(crate) fn lanes_push(v: &mut im::Vector<Chunk>, c: Chunk)
    ensures
        lane_items(*final(v)) == lane_items(*old(v)).push(c),
{
    v.push_back(c);
}

/// `im::Vector::pop_back`: drops the last item of a non-empty vector.
#[verifier::external_body]
pub(crate) fn lanes_pop(v: &mut im::Vector<Chunk>)
    requires
        lane_items(*old(v)).len() > 0,
    ensures
        lane_items(*final(v)) == lane_items(*old(v)).drop_last(),
{
    v.pop_back();
}

/// `im::Vector::insert`: shifts the items from `index` on to the right; `index` may be the length.
#[verifier::external_body]
pub(crate) fn lanes_insert(v: &mut im::Vector<Chunk>, index: usize, c: Chunk)
    requires
        index <= lane_items(*old(v)).len(),
    ensures
        lane_items(*final(v)) == lane_items(*old(v)).insert(index as int, c),
{
    v.insert(index, c);
}

/// `im::Vector::remove`: takes out the item at `index`, shifting the rest to the left.
#[verifier::external_body]
pub(crate) fn lanes_remove(v: &mut im::Vector<Chunk>, index: usize)
    requires
        index < lane_items(*old(v)).len(),
    ensures
        lane_items(*final(v)) == lane_items(*old(v)).remove(index as int),
{
    v.remove(index);
}

/// `Clone` of `im::Vector`: a vector with the same items.
#[verifier::external_body]
pub(crate) fn lanes_clone(v: &im::Vector<Chunk>) -> (r: im::Vector<Chunk>)
    ensures
        lane_items(r) == lane_items(*v),
{
    v.clone()
}

// ---- im::Vector<u32> ----

/// `im::Vector::new`: an empty vector.
#[verifier::external_body]
pub(crate) fn parents_new() -> (v: im::Vector<u32>)
    ensures
        parent_items(v) == Seq::<u32>::empty(),
{
    im::Vector::new()
}

/// `im::Vector::len`: the number of items.
#[verifier::external_body]
pub(crate) fn parents_len(v: &im::Vector<u32>) -> (n: usize)
    ensures
        n == parent_items(*v).len(),
{
    v.len()
}

/// `Index<usize>` of `im::Vector`: the item at `index`.
#[verifier::external_body]
pub(crate) fn parents_at(v: &im::Vector<u32>, index: usize) -> (p: u32)
    requires
        index < parent_items(*v).len(),
    ensures
        p == parent_items(*v)[index as int],
{
    v[index]
}

/// `im::Vector::push_back`: appends an item.
#[verifier::external_body]
pub(crate) fn parents_push(v: &mut im::Vector<u32>, p: u32)
    ensures
        parent_items(*final(v)) == parent_items(*old(v)).push(p),
{
    v.push_back(p);
}

/// `im::Vector::remove`: takes out the item at `index`, shifting the rest to the left.
#[verifier::external_body]
pub(crate) fn parents_remove(v: &mut im::Vector<u32>, index: usize)
    requires
        index < parent_items(*old(v)).len(),
    ensures
        parent_items(*final(v)) == parent_items(*old(v)).remove(index as int),
{
    v.remove(index);
}

/// `Clone` of `im::Vector`: a vector with the same items.
#[verifier::external_body]
pub(crate) fn parents_clone(v: &im::Vector<u32>) -> (r: im::Vector<u32>)
    ensures
        parent_items(r) == parent_items(*v),
{
    v.clone()
}

// ---- im::Vector<Delta> ----

/// `im::Vector::new`: an empty vector.
#[verifier::external_body]
pub(crate) fn deltas_new() -> (v: im::Vector<Delta>)
    ensures
        delta_items(v) == Seq::<Delta>::empty(),
{
    im::Vector::new()
}

/// `im::Vector::len`: the number of items.
#[verifier::external_body]
pub(crate) fn deltas_len(v: &im::Vector<Delta>) -> (n: usize)
    ensures
        n == delta_items(*v).len(),
{
    v.len()
}

/// `Index<usize>` of `im::Vector`: a reference to the item at `index`.
#[verifier::external_body]
pub(crate) fn deltas_at(v: &im::Vector<Delta>, index: usize) -> (d: &Delta)
    requires
        index < delta_items(*v).len(),
    ensures
        *d == delta_items(*v)[index as int],
{
    &v[index]
}

/// `im::Vector::push_back`: appends an item.
#[verifier::external_body]
pub(crate) fn deltas_push(v: &mut im::Vector<Delta>, d: Delta)
    ensures
        delta_items(*final(v)) == delta_items(*old(v)).push(d),
{
    v.push_back(d);
}

// ---- im::Vector<GraphSnapshot> ----

/// `im::Vector::new`: an empty vector.
#[verifier::external_body]
pub(crate) fn snapshots_new() -> (v: im::Vector<GraphSnapshot>)
    ensures
        snapshot_items(v) == Seq::<GraphSnapshot>::empty(),
{
    im::Vector::new()
}

/// `im::Vector::push_back`: appends an item.
#[verifier::external_body]
pub(crate) fn snapshots_push(v: &mut im::Vector<GraphSnapshot>, s: GraphSnapshot)
    ensures
        snapshot_items(*final(v)) == snapshot_items(*old(v)).push(s),
{
    v.push_back(s);
}

// ---- im::OrdMap<usize, GraphSnapshot> ----

/// Row snapshots keyed by the index of the delta after which they were taken.
pub type Checkpoints = im::OrdMap<usize, GraphSnapshot>;

/// `im::OrdMap::new`: an empty map.
#[verifier::external_body]
pub(crate) fn checkpoints_new() -> (r: Checkpoints)
    ensures
        checkpoint_entries(r).dom() == Set::<usize>::empty(),
{
    im::OrdMap::new()
}

/// `im::OrdMap::insert`: maps `key` to `value`, replacing what it mapped to before.
#[verifier::external_body]
pub(crate) fn checkpoints_insert(m: &mut im::OrdMap<usize, GraphSnapshot>, key: usize, value: GraphSnapshot)
    ensures
        checkpoint_entries(*final(m)) == checkpoint_entries(*old(m)).insert(key, value),
{
    m.insert(key, value);
}

/// `im::OrdMap::keys`: the keys of the map, smallest first, each once.
#[verifier::external_body]
pub(crate) fn checkpoint_keys(m: &im::OrdMap<usize, GraphSnapshot>) -> (r: Vec<usize>)
    ensures
        forall|i: int, j: int| 0 <= i < j < r@.len() ==> r@[i] < r@[j],
        forall|k: usize| checkpoint_entries(*m).contains_key(k) <==> r@.contains(k),
{
    m.keys().copied().collect()
}

/// `im::OrdMap::get`: the value under `key`, if there is one.
#[verifier::external_body]
pub(crate) fn checkpoint_get(m: &im::OrdMap<usize, GraphSnapshot>, key: usize) -> (r: Option<&GraphSnapshot>)
    ensures
        r matches Some(s) ==> checkpoint_entries(*m).contains_key(key) && *s == checkpoint_entries(*m)[key],
        r is None ==> !checkpoint_entries(*m).contains_key(key),
{
    m.get(&key)
}

} // verus!
