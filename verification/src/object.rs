//! The identity of a piece.
//!
//! A piece is known to the rest of the program by a small number that stays
//! with it for as long as it exists. Where the piece is kept (its handle)
//! may change, as when a piece is taken off the table and put back; the
//! number does not. The map in this module leads from the number to the
//! handle.

use std::collections::HashMap;
use vstd::prelude::*;

verus! {

/// The number by which a piece is known.
#[derive(Clone, Copy, Debug, PartialEq, Eq, Hash, Structural)]
pub struct ObjectId(pub u32);

/// The number that the next new piece gets. It only ever grows.
#[derive(Clone, Copy, Debug, PartialEq, Eq, Structural)]
pub struct NextObjectId(pub u32);

impl Default for NextObjectId {
    /// The counter before any number was handed out.
    fn default() -> (r: NextObjectId)
        ensures
            r == NextObjectId(0),
    {
        NextObjectId(0)
    }
}

impl NextObjectId {
    /// Hands out a number that this counter has not handed out before, and
    /// moves on. Fails, changing nothing, when the counter cannot move on.
    pub fn allocate(&mut self) -> (r: Option<ObjectId>)
        ensures
            match r {
                Some(id) => id.0 == old(self).0 && final(self).0 == old(self).0 + 1,
                None => old(self).0 == u32::MAX && *final(self) == *old(self),
            },
    {
        if self.0 == u32::MAX {
            None
        } else {
            let id = ObjectId(self.0);
            self.0 = self.0 + 1;
            Some(id)
        }
    }
}

/// No piece is known by this number.
#[derive(Clone, Copy, Debug, PartialEq, Eq, Structural)]
pub struct UnknownObjectId(pub u32);

/// Where the piece of each number is kept.
#[derive(Debug)]
pub struct ObjectIdMap(pub HashMap<u32, usize>);

impl View for ObjectIdMap {
    type V = Map<u32, usize>;

    open spec fn view(&self) -> Map<u32, usize> {
        self.0@
    }
}

impl Default for ObjectIdMap {
    /// A map that knows no piece.
    fn default() -> (r: ObjectIdMap)
        ensures
            r@ == Map::<u32, usize>::empty(),
    {
        ObjectIdMap::new()
    }
}

impl ObjectIdMap {
    /// A map that knows no piece.
    pub fn new() -> (r: ObjectIdMap)
        ensures
            r@ == Map::<u32, usize>::empty(),
    {
        ObjectIdMap(HashMap::new())
    }

    /// How many pieces are known.
    pub fn len(&self) -> (r: usize)
        ensures
            r == self@.len(),
    {
        self.0.len()
    }

    /// Whether a piece is known by `oid`.
    pub fn contains(&self, oid: u32) -> (r: bool)
        ensures
            r == self@.contains_key(oid),
    {
        self.0.contains_key(&oid)
    }

    /// Where the piece known by `oid` is kept.
    pub fn get(&self, oid: u32) -> (r: Result<usize, UnknownObjectId>)
        ensures
            match r {
                Ok(entity) => self@.contains_key(oid) && self@[oid] == entity,
                Err(e) => !self@.contains_key(oid) && e == UnknownObjectId(oid),
            },
    {
        match self.0.get(&oid) {
            Some(entity) => Ok(*entity),
            None => Err(UnknownObjectId(oid)),
        }
    }
}

/// Records that the piece known by `oid` is kept at `entity`, whatever was
/// recorded of `oid` before.
pub fn insert_object_id(index: &mut ObjectIdMap, oid: u32, entity: usize)
    ensures
        final(index)@ == old(index)@.insert(oid, entity),
{
    index.0.insert(oid, entity);
}

/// Forgets the piece known by `oid`.
pub fn discard_object_id(index: &mut ObjectIdMap, oid: u32)
    ensures
        final(index)@ == old(index)@.remove(oid),
{
    index.0.remove(&oid);
}

} // verus!
