//! The table and the pieces on it.
//!
//! Pieces are kept in slots. A slot is given out once: the slot of a piece
//! that has left the table stays empty, so a handle never comes to mean
//! another piece. Every piece on the table is found by its number through
//! the map from numbers to handles, which is changed in the same step that
//! puts a piece on the table or takes it off.

use vstd::prelude::*;

use crate::object::{discard_object_id, insert_object_id, ObjectIdMap, UnknownObjectId};
use crate::piece::{do_flip, Piece};

verus! {

/// What a table holds.
pub struct World {
    /// The slots, each with the piece in it, if there is one.
    pub slots: Seq<Option<Piece>>,
    /// The handle of each piece on the table, by the piece's number.
    pub index: Map<u32, int>,
}

impl World {
    /// The table with nothing on it.
    pub open spec fn empty() -> World {
        World { slots: Seq::empty(), index: Map::empty() }
    }

    /// Whether a piece known by `oid` is on the table.
    pub open spec fn live(self, oid: u32) -> bool {
        self.index.contains_key(oid)
    }

    /// The piece known by `oid`.
    pub open spec fn piece(self, oid: u32) -> Piece {
        self.slots[self.index[oid]]->0
    }

    /// The pieces on the table by their numbers, wherever they are kept.
    pub open spec fn pieces(self) -> Map<u32, Piece> {
        Map::new(|oid: u32| self.live(oid), |oid: u32| self.piece(oid))
    }

    /// Whether slot `entity` holds a piece.
    pub open spec fn occupied(self, entity: int) -> bool {
        0 <= entity < self.slots.len() && self.slots[entity] is Some
    }

    /// The map leads from each number on it to the slot of a piece with that
    /// number, every piece in a slot is found that way, and every piece is
    /// valid. So no two pieces on the table have the same number.
    pub open spec fn wf(self) -> bool {
        &&& forall|oid: u32| #[trigger]
            self.index.contains_key(oid) ==> self.occupied(self.index[oid]) && self.piece(oid).id
                == oid
        &&& forall|entity: int| #[trigger]
            self.occupied(entity) ==> {
                let p = self.slots[entity]->0;
                p.valid() && self.index.contains_key(p.id) && self.index[p.id] == entity
            }
    }

    /// The table with `piece` on it in a new slot.
    pub open spec fn spawn(self, piece: Piece) -> World {
        World {
            slots: self.slots.push(Some(piece)),
            index: self.index.insert(piece.id, self.slots.len() as int),
        }
    }

    /// The table without the piece known by `oid`.
    pub open spec fn despawn(self, oid: u32) -> World {
        World {
            slots: self.slots.update(self.index[oid], None),
            index: self.index.remove(oid),
        }
    }

    /// The table after the piece known by `oid` went `delta` steps round
    /// its faces.
    pub open spec fn flip(self, oid: u32, delta: int) -> World {
        World {
            slots: self.slots.update(self.index[oid], Some(self.piece(oid).turned(delta))),
            index: self.index,
        }
    }
}

/// Putting a valid piece with a number that is free on the table keeps the
/// table well formed; the piece is then on it as it was given, and the
/// others are as they were.
pub proof fn lemma_spawn(w: World, piece: Piece)
    requires
        w.wf(),
        !w.live(piece.id),
        piece.valid(),
    ensures
        w.spawn(piece).wf(),
        w.spawn(piece).pieces() == w.pieces().insert(piece.id, piece),
{
    let v = w.spawn(piece);
    assert forall|oid: u32| #[trigger] v.index.contains_key(oid) implies v.occupied(
        v.index[oid],
    ) && v.piece(oid).id == oid by {
        if oid != piece.id {
            assert(w.index.contains_key(oid));
        }
    }
    assert forall|entity: int| #[trigger] v.occupied(entity) implies ({
        let p = v.slots[entity]->0;
        p.valid() && v.index.contains_key(p.id) && v.index[p.id] == entity
    }) by {
        if entity < w.slots.len() {
            assert(w.occupied(entity));
        }
    }
    assert forall|oid: u32| v.live(oid) && oid != piece.id implies v.piece(oid) == w.piece(
        oid,
    ) by {
        assert(w.index.contains_key(oid));
    }
    assert(v.pieces() =~= w.pieces().insert(piece.id, piece));
}

/// Taking a piece off the table keeps the table well formed; the piece is
/// then not on it, and the others are as they were.
pub proof fn lemma_despawn(w: World, oid: u32)
    requires
        w.wf(),
        w.live(oid),
    ensures
        w.despawn(oid).wf(),
        w.despawn(oid).pieces() == w.pieces().remove(oid),
{
    let v = w.despawn(oid);
    assert(w.index.contains_key(oid));
    assert forall|other: u32| #[trigger] v.index.contains_key(other) implies v.occupied(
        v.index[other],
    ) && v.piece(other).id == other by {
        assert(w.index.contains_key(other));
        assert(w.occupied(w.index[other]));
    }
    assert forall|entity: int| #[trigger] v.occupied(entity) implies ({
        let p = v.slots[entity]->0;
        p.valid() && v.index.contains_key(p.id) && v.index[p.id] == entity
    }) by {
        assert(w.occupied(entity));
    }
    assert forall|other: u32| v.live(other) implies v.piece(other) == w.piece(other) by {
        assert(w.index.contains_key(other));
        assert(w.occupied(w.index[other]));
    }
    assert(v.pieces() =~= w.pieces().remove(oid));
}

/// Turning a piece keeps the table well formed; the piece is then turned,
/// and the others are as they were.
pub proof fn lemma_flip(w: World, oid: u32, delta: int)
    requires
        w.wf(),
        w.live(oid),
    ensures
        w.flip(oid, delta).wf(),
        w.flip(oid, delta).pieces() == w.pieces().insert(oid, w.piece(oid).turned(delta)),
        w.flip(oid, delta).piece(oid).id == oid,
        w.flip(oid, delta).piece(oid).faces == w.piece(oid).faces,
        w.flip(oid, delta).piece(oid).up.0 == crate::piece::turned(
            w.piece(oid).up.0 as int,
            w.piece(oid).faces as int,
            delta,
        ),
{
    let v = w.flip(oid, delta);
    assert(w.index.contains_key(oid));
    assert(w.occupied(w.index[oid]));
    crate::piece::lemma_turned_in_range(
        w.piece(oid).up.0 as int,
        w.piece(oid).faces as int,
        delta,
    );
    assert forall|other: u32| #[trigger] v.index.contains_key(other) implies v.occupied(
        v.index[other],
    ) && v.piece(other).id == other by {
        assert(w.index.contains_key(other));
        assert(w.occupied(w.index[other]));
    }
    assert forall|entity: int| #[trigger] v.occupied(entity) implies ({
        let p = v.slots[entity]->0;
        p.valid() && v.index.contains_key(p.id) && v.index[p.id] == entity
    }) by {
        assert(w.occupied(entity));
    }
    assert forall|other: u32| v.live(other) && other != oid implies v.piece(other) == w.piece(
        other,
    ) by {
        assert(w.index.contains_key(other));
        assert(w.occupied(w.index[other]));
    }
    assert(v.pieces() =~= w.pieces().insert(oid, w.piece(oid).turned(delta)));
}

/// No two pieces on a well-formed table are known by the same number, and
/// the piece known by a number is found in one slot only.
pub proof fn lemma_numbers_differ(w: World, e1: int, e2: int)
    requires
        w.wf(),
        w.occupied(e1),
        w.occupied(e2),
        w.slots[e1]->0.id == w.slots[e2]->0.id,
    ensures
        e1 == e2,
        w.live(w.slots[e1]->0.id),
        w.index[w.slots[e1]->0.id] == e1,
{
}

/// The handles of a record, as numbers without a bound.
pub open spec fn handles(objmap: Map<u32, usize>) -> Map<u32, int> {
    Map::new(|oid: u32| objmap.contains_key(oid), |oid: u32| objmap[oid] as int)
}

/// The pieces of a session and the record of where each is kept.
#[derive(Debug)]
pub struct Table {
    slots: Vec<Option<Piece>>,
    objmap: ObjectIdMap,
}

impl View for Table {
    type V = World;

    closed spec fn view(&self) -> World {
        World { slots: self.slots@, index: handles(self.objmap@) }
    }
}

impl Default for Table {
    /// A table with nothing on it.
    fn default() -> (r: Table)
        ensures
            r@ == World::empty(),
            r@.wf(),
    {
        Table::new()
    }
}

impl Table {
    /// A table with nothing on it.
    pub fn new() -> (r: Table)
        ensures
            r@ == World::empty(),
            r@.wf(),
    {
        let r = Table { slots: Vec::new(), objmap: ObjectIdMap::new() };
        assert(r@.index =~= Map::<u32, int>::empty());
        r
    }

    /// The record of where each piece is kept.
    pub fn objmap(&self) -> (r: &ObjectIdMap)
        ensures
            handles(r@) == self@.index,
    {
        &self.objmap
    }

    /// How many slots have been given out.
    pub fn slots(&self) -> (r: usize)
        ensures
            r == self@.slots.len(),
    {
        self.slots.len()
    }

    /// The piece in slot `entity`, if there is one.
    pub fn at(&self, entity: usize) -> (r: Option<Piece>)
        ensures
            r == (if self@.occupied(entity as int) {
                self@.slots[entity as int]
            } else {
                None
            }),
    {
        if entity < self.slots.len() {
            self.slots[entity]
        } else {
            None
        }
    }

    /// Whether a piece known by `oid` is on the table.
    pub fn contains(&self, oid: u32) -> (r: bool)
        ensures
            r == self@.live(oid),
    {
        self.objmap.contains(oid)
    }

    /// The handle of the piece known by `oid`.
    pub fn entity(&self, oid: u32) -> (r: Result<usize, UnknownObjectId>)
        ensures
            match r {
                Ok(entity) => self@.live(oid) && self@.index[oid] == entity,
                Err(e) => !self@.live(oid) && e == UnknownObjectId(oid),
            },
    {
        self.objmap.get(oid)
    }

    /// The piece known by `oid`.
    pub fn piece(&self, oid: u32) -> (r: Result<Piece, UnknownObjectId>)
        requires
            self@.wf(),
        ensures
            match r {
                Ok(p) => self@.live(oid) && p == self@.piece(oid),
                Err(e) => !self@.live(oid) && e == UnknownObjectId(oid),
            },
    {
        match self.objmap.get(oid) {
            Ok(entity) => {
                assert(self@.index.contains_key(oid));
                assert(self@.occupied(entity as int));
                Ok(self.slots[entity].unwrap())
            },
            Err(e) => Err(e),
        }
    }

    /// A table that holds what this one holds.
    pub fn duplicate(&self) -> (r: Table)
        ensures
            r@ == self@,
    {
        let mut slots: Vec<Option<Piece>> = Vec::new();
        let mut i: usize = 0;
        while i < self.slots.len()
            invariant
                i <= self.slots.len(),
                slots@ == self.slots@.take(i as int),
            decreases self.slots.len() - i,
        {
            slots.push(self.slots[i]);
            assert(self.slots@.take(i + 1) =~= self.slots@.take(i as int).push(self.slots@[i as int]));
            i += 1;
        }
        assert(self.slots@.take(i as int) =~= self.slots@);
        Table { slots, objmap: ObjectIdMap(self.objmap.0.clone()) }
    }

    /// Puts `piece` on the table, in a new slot, and returns its handle.
    pub(crate) fn spawn(&mut self, piece: Piece) -> (entity: usize)
        requires
            old(self)@.wf(),
            !old(self)@.live(piece.id),
            piece.valid(),
        ensures
            final(self)@ == old(self)@.spawn(piece),
            final(self)@.wf(),
            entity == old(self)@.slots.len(),
    {
        let entity: usize = self.slots.len();
        self.slots.push(Some(piece));
        insert_object_id(&mut self.objmap, piece.id, entity);
        proof {
            lemma_spawn(old(self)@, piece);
            assert(self@.index =~= old(self)@.spawn(piece).index);
        }
        entity
    }

    /// Takes the piece known by `oid` off the table and returns the handle
    /// that it had.
    pub(crate) fn despawn(&mut self, oid: u32) -> (entity: usize)
        requires
            old(self)@.wf(),
            old(self)@.live(oid),
        ensures
            final(self)@ == old(self)@.despawn(oid),
            final(self)@.wf(),
            entity == old(self)@.index[oid],
    {
        let entity: usize = self.objmap.get(oid).unwrap();
        assert(old(self)@.index.contains_key(oid));
        assert(old(self)@.occupied(entity as int));
        self.slots.set(entity, None);
        discard_object_id(&mut self.objmap, oid);
        proof {
            lemma_despawn(old(self)@, oid);
            assert(self@.index =~= old(self)@.despawn(oid).index);
        }
        entity
    }

    /// Turns the piece known by `oid` by `delta` steps round its faces and
    /// returns its handle.
    pub(crate) fn flip(&mut self, oid: u32, delta: i64) -> (entity: usize)
        requires
            old(self)@.wf(),
            old(self)@.live(oid),
        ensures
            final(self)@ == old(self)@.flip(oid, delta as int),
            final(self)@.wf(),
            entity == old(self)@.index[oid],
    {
        let entity: usize = self.objmap.get(oid).unwrap();
        assert(old(self)@.index.contains_key(oid));
        assert(old(self)@.occupied(entity as int));
        let p: Piece = self.slots[entity].unwrap();
        let up = do_flip(p.up, p.faces, delta);
        self.slots.set(entity, Some(Piece { up, ..p }));
        proof {
            lemma_flip(old(self)@, oid, delta as int);
        }
        entity
    }
}

} // verus!
