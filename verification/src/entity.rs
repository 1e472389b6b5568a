//! Entities and the typed records attached to them.

use vstd::prelude::*;

verus! {

/// An opaque, stable identity inside a [`World`](crate::world::World).
#[derive(Clone, Copy, Debug, PartialEq, Eq, Hash, Structural)]
pub struct Entity {
    pub index: u32,
}

impl Entity {
    /// The entity stored at slot `index`.
    pub fn from_raw(index: u32) -> (e: Entity)
        ensures
            e.index == index,
    {
        Entity { index }
    }

    /// The slot this entity occupies.
    pub fn index(&self) -> (i: u32)
        ensures
            i == self.index,
    {
        self.index
    }
}

/// A typed value attached to an entity. At most one record of each `tag`
/// is attached to an entity at a time.
#[derive(Clone, Copy, Debug, PartialEq, Eq, Hash, Structural)]
pub struct Record {
    pub tag: u32,
    pub value: u64,
}

impl Record {
    pub fn new(tag: u32, value: u64) -> (r: Record)
        ensures
            r == (Record { tag, value }),
    {
        Record { tag, value }
    }

    /// The record of type `tag` that carries the default value, zero.
    pub fn default_of(tag: u32) -> (r: Record)
        ensures
            r == (Record { tag, value: 0 }),
    {
        Record { tag, value: 0 }
    }
}

} // verus!
