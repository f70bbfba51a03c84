//! Collision shapes of a chunk, keyed by grid cell.
use vstd::prelude::*;

verus! {

/// An axis-aligned box, the collision shape of one occupied grid cell. The
/// sizes are in world units.
#[derive(Clone, Copy, Debug, PartialEq, Eq)]
pub struct BoxCollider {
    pub width: i32,
    pub height: i32,
}

/// A map from grid cells to collision shapes, held in a `bevy_utils::HashMap`.
///
/// Verus does not look into the hash map. What it holds is named by
/// [`collider_entries`], and the functions below that touch the map say what
/// they do in terms of that name.
#[verifier::external_body]
pub struct ColliderMap {
    inner: bevy_utils::HashMap<(i32, i32), BoxCollider>,
}

/// The entries of the hash map inside a [`ColliderMap`].
pub uninterp spec fn collider_entries(m: ColliderMap) -> Map<(i32, i32), BoxCollider>;

impl View for ColliderMap {
    type V = Map<(i32, i32), BoxCollider>;

    open spec fn view(&self) -> Map<(i32, i32), BoxCollider> {
        collider_entries(*self)
    }
}

/// The map without entries.
pub open spec fn no_colliders() -> Map<(i32, i32), BoxCollider> {
    Map::empty()
}

/// `HashMap::default` of hashbrown, through the alias `bevy_utils::HashMap`:
/// the map it returns has no entries.
#[verifier::external_body]
fn collider_map_new() -> (m: ColliderMap)
    ensures
        collider_entries(m) == no_colliders(),
{
    ColliderMap { inner: bevy_utils::HashMap::default() }
}

/// `HashMap::insert` of hashbrown: afterwards the key maps to the new value,
/// whether it was present or not, and every other entry is as it was. The old
/// value that `insert` returns is dropped.
#[verifier::external_body]
fn collider_map_insert(m: &mut ColliderMap, cell: (i32, i32), shape: BoxCollider)
    ensures
        collider_entries(*final(m)) == collider_entries(*old(m)).insert(cell, shape),
{
    m.inner.insert(cell, shape);
}

/// `HashMap::len` of hashbrown: the number of entries.
#[verifier::external_body]
fn collider_map_len(m: &ColliderMap) -> (n: usize)
    ensures
        n == collider_entries(*m).dom().len(),
{
    m.inner.len()
}

/// `HashMap::get` of hashbrown: the value of the key, if the key is present.
#[verifier::external_body]
fn collider_map_get(m: &ColliderMap, cell: (i32, i32)) -> (shape: Option<BoxCollider>)
    ensures
        shape is Some <==> collider_entries(*m).contains_key(cell),
        shape matches Some(s) ==> s == collider_entries(*m)[cell],
{
    m.inner.get(&cell).copied()
}

/// `HashMap::iter` of hashbrown, collected: every entry once, in an order that
/// nothing is said about.
#[verifier::external_body]
fn collider_map_entries(m: &ColliderMap) -> (entries: Vec<((i32, i32), BoxCollider)>)
    ensures
        entries@.len() == collider_entries(*m).dom().len(),
        forall|i: int|
            0 <= i < entries@.len() ==> collider_entries(*m).contains_pair(
                (#[trigger] entries@[i]).0,
                entries@[i].1,
            ),
        forall|i: int, j: int|
            0 <= i < j < entries@.len() ==> (#[trigger] entries@[i]).0 != (#[trigger] entries@[j]).0,
        forall|cell: (i32, i32)|
            collider_entries(*m).contains_key(cell) ==> exists|i: int|
                0 <= i < entries@.len() && (#[trigger] entries@[i]).0 == cell,
{
    m.inner.iter().map(|(cell, shape)| (*cell, *shape)).collect()
}

impl ColliderMap {
    /// A map without entries.
    pub(crate) fn new() -> (m: ColliderMap)
        ensures
            m@ == no_colliders(),
            m@.dom().finite(),
    {
        collider_map_new()
    }

    /// Gives `cell` the shape `shape`, in place of the shape it had, if any.
    pub(crate) fn insert(&mut self, cell: (i32, i32), shape: BoxCollider)
        ensures
            final(self)@ == old(self)@.insert(cell, shape),
            old(self)@.dom().finite() ==> final(self)@.dom().finite(),
    {
        collider_map_insert(self, cell, shape)
    }

    /// The number of cells that have a shape.
    pub fn len(&self) -> (n: usize)
        ensures
            n == self@.dom().len(),
    {
        collider_map_len(self)
    }

    /// The shape of `cell`, if it has one.
    pub fn get(&self, cell: (i32, i32)) -> (shape: Option<BoxCollider>)
        ensures
            shape is Some <==> self@.contains_key(cell),
            shape matches Some(s) ==> s == self@[cell],
    {
        collider_map_get(self, cell)
    }

    /// Every cell that has a shape, with its shape, each once. The order is
    /// not fixed.
    pub fn entries(&self) -> (entries: Vec<((i32, i32), BoxCollider)>)
        ensures
            entries@.len() == self@.dom().len(),
            forall|i: int|
                0 <= i < entries@.len() ==> self@.contains_pair(
                    (#[trigger] entries@[i]).0,
                    entries@[i].1,
                ),
            forall|i: int, j: int|
                0 <= i < j < entries@.len() ==> (#[trigger] entries@[i]).0 != (
                #[trigger] entries@[j]).0,
            forall|cell: (i32, i32)|
                self@.contains_key(cell) ==> exists|i: int|
                    0 <= i < entries@.len() && (#[trigger] entries@[i]).0 == cell,
    {
        collider_map_entries(self)
    }
}

} // verus!
