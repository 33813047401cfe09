//! The things that can be done to the table, each with the way to undo it.

use vstd::prelude::*;

use crate::angle::{negate, opposite};
use crate::event::{CloneEvent, CreateEvent, DeleteEvent, Event, FlipEvent, RotateEvent};
use crate::piece::{FaceUp, Piece};
use crate::table::{Table, World};

verus! {

/// What is kept of a piece so that it can be put on the table (again).
#[derive(Clone, Copy, Debug, PartialEq, Eq, Structural)]
pub struct PieceData {
    /// The number by which the piece is known.
    pub piece_id: u32,
    /// How many faces the piece has.
    pub faces: usize,
    /// The face that is up.
    pub face_up: usize,
}

impl PieceData {
    /// The piece that this describes.
    pub open spec fn piece(self) -> Piece {
        Piece { id: self.piece_id, faces: self.faces, up: FaceUp(self.face_up) }
    }

    /// What is to be kept of `piece`.
    pub open spec fn of(piece: Piece) -> PieceData {
        PieceData { piece_id: piece.id, faces: piece.faces, face_up: piece.up.0 }
    }
}

/// Why an action could not be carried out.
#[derive(Clone, Copy, Debug, PartialEq, Eq, Structural)]
pub enum ActionError {
    /// No piece on the table is known by this number.
    UnknownObjectId(u32),
    /// A piece on the table is known by this number already.
    ObjectIdInUse(u32),
    /// The piece to be known by this number has no face, or shows a face
    /// that it does not have.
    MalformedPieceData(u32),
    /// Every number for a new piece has been handed out.
    OutOfObjectIds,
}

/// Something that can be done to the table, and undone.
#[derive(Debug, PartialEq, Eq)]
pub enum Action {
    /// Turn up the face of a piece that is this many steps further on.
    Flip(u32, i32),
    /// Turn a piece by the degrees with this pattern.
    Rotate(u32, u32),
    /// Put the piece described on the table.
    Create(PieceData),
    /// Take the piece described off the table.
    Delete(PieceData),
    /// Put a copy of the second piece on the table, known by the first number.
    Clone(u32, u32),
    /// Do these one after the other, as one.
    Group(Vec<Action>),
}

/// A table together with what it has reported so far.
pub struct Stage {
    pub world: World,
    pub events: Seq<Event>,
}

impl Stage {
    /// The piece known by `oid` goes `delta` steps round its faces.
    pub open spec fn flip(self, oid: u32, delta: int) -> Result<Stage, ActionError> {
        if !self.world.live(oid) {
            Err(ActionError::UnknownObjectId(oid))
        } else {
            Ok(
                Stage {
                    world: self.world.flip(oid, delta),
                    events: self.events.push(
                        Event::Flip(
                            FlipEvent { entity: self.world.index[oid] as usize, delta: delta as i64 },
                        ),
                    ),
                },
            )
        }
    }

    /// The piece known by `oid` is to be turned by `dtheta`. The table holds
    /// nothing of how a piece lies, so this is reported and changes nothing
    /// on the table.
    pub open spec fn rotate(self, oid: u32, dtheta: u32) -> Result<Stage, ActionError> {
        if !self.world.live(oid) {
            Err(ActionError::UnknownObjectId(oid))
        } else {
            Ok(
                Stage {
                    world: self.world,
                    events: self.events.push(
                        Event::Rotate(
                            RotateEvent { entity: self.world.index[oid] as usize, dtheta },
                        ),
                    ),
                },
            )
        }
    }

    /// The piece that `pd` describes is put on the table.
    pub open spec fn create(self, pd: PieceData) -> Result<Stage, ActionError> {
        if !pd.piece().valid() {
            Err(ActionError::MalformedPieceData(pd.piece_id))
        } else if self.world.live(pd.piece_id) {
            Err(ActionError::ObjectIdInUse(pd.piece_id))
        } else {
            Ok(
                Stage {
                    world: self.world.spawn(pd.piece()),
                    events: self.events.push(
                        Event::Create(
                            CreateEvent { entity: self.world.slots.len() as usize, pd },
                        ),
                    ),
                },
            )
        }
    }

    /// The piece known by `oid` is taken off the table.
    pub open spec fn delete(self, oid: u32) -> Result<Stage, ActionError> {
        if !self.world.live(oid) {
            Err(ActionError::UnknownObjectId(oid))
        } else {
            Ok(
                Stage {
                    world: self.world.despawn(oid),
                    events: self.events.push(
                        Event::Delete(DeleteEvent { entity: self.world.index[oid] as usize }),
                    ),
                },
            )
        }
    }

    /// A copy of the piece known by `source`, as it is now, is put on the
    /// table and is known by `oid`.
    pub open spec fn clone_piece(self, oid: u32, source: u32) -> Result<Stage, ActionError> {
        if !self.world.live(source) {
            Err(ActionError::UnknownObjectId(source))
        } else if self.world.live(oid) {
            Err(ActionError::ObjectIdInUse(oid))
        } else {
            Ok(
                Stage {
                    world: self.world.spawn(Piece { id: oid, ..self.world.piece(source) }),
                    events: self.events.push(
                        Event::Clone(
                            CloneEvent {
                                entity: self.world.index[source] as usize,
                                clone: self.world.slots.len() as usize,
                                clone_id: oid,
                            },
                        ),
                    ),
                },
            )
        }
    }
}

/// What carrying out `a` makes of `st`: the first failure, or the table and
/// the reports after the last step.
pub open spec fn committed(a: Action, st: Stage) -> Result<Stage, ActionError>
    decreases a, 0nat,
{
    match a {
        Action::Flip(oid, delta) => st.flip(oid, delta as int),
        Action::Rotate(oid, dtheta) => st.rotate(oid, dtheta),
        Action::Create(pd) => st.create(pd),
        Action::Delete(pd) => st.delete(pd.piece_id),
        Action::Clone(oid, source) => st.clone_piece(oid, source),
        Action::Group(v) => committed_upto(v@, v@.len(), st),
    }
}

/// What carrying out the first `n` actions of `s`, in their order, makes of
/// `st`.
pub open spec fn committed_upto(s: Seq<Action>, n: nat, st: Stage) -> Result<Stage, ActionError>
    decreases s, n,
{
    if n == 0 || n > s.len() {
        Ok(st)
    } else {
        match committed_upto(s, (n - 1) as nat, st) {
            Ok(mid) => committed(s[n - 1], mid),
            Err(e) => Err(e),
        }
    }
}

/// What undoing `a` makes of `st`: the first failure, or the table and the
/// reports after the last step.
pub open spec fn reverted(a: Action, st: Stage) -> Result<Stage, ActionError>
    decreases a, 0nat,
{
    match a {
        Action::Flip(oid, delta) => st.flip(oid, -(delta as int)),
        Action::Rotate(oid, dtheta) => st.rotate(oid, opposite(dtheta)),
        Action::Create(pd) => st.delete(pd.piece_id),
        Action::Delete(pd) => st.create(pd),
        Action::Clone(oid, _) => st.delete(oid),
        Action::Group(v) => reverted_from(v@, v@.len(), st),
    }
}

/// What undoing the first `n` actions of `s`, the last of them first, makes
/// of `st`.
pub open spec fn reverted_from(s: Seq<Action>, n: nat, st: Stage) -> Result<Stage, ActionError>
    decreases s, n,
{
    if n == 0 || n > s.len() {
        Ok(st)
    } else {
        match reverted(s[n - 1], st) {
            Ok(next) => reverted_from(s, (n - 1) as nat, next),
            Err(e) => Err(e),
        }
    }
}

impl Action {
    /// A group of one action is that action; anything else is itself.
    pub open spec fn flattened(self) -> Action {
        match self {
            Action::Group(v) if v@.len() == 1 => v@[0],
            _ => self,
        }
    }

    /// Unwraps a group of one action.
    pub fn flatten(self) -> (r: Action)
        ensures
            r == self.flattened(),
    {
        match self {
            Action::Group(mut v) => {
                if v.len() == 1 {
                    v.pop().unwrap()
                } else {
                    Action::Group(v)
                }
            },
            other => other,
        }
    }

    /// Carries the action out step by step. A group that fails leaves the
    /// steps before the failure done.
    #[verifier::loop_isolation(false)]
    fn commit_into(&self, table: &mut Table, commands: &mut Vec<Event>) -> (r: Result<
        (),
        ActionError,
    >)
        requires
            old(table)@.wf(),
        ensures
            final(table)@.wf(),
            old(commands)@.is_prefix_of(final(commands)@),
            match r {
                Ok(()) => committed(*self, Stage { world: old(table)@, events: old(commands)@ })
                    == Ok::<Stage, ActionError>(
                    Stage { world: final(table)@, events: final(commands)@ },
                ),
                Err(e) => {
                    &&& committed(*self, Stage { world: old(table)@, events: old(commands)@ })
                        == Err::<Stage, ActionError>(e)
                    &&& self !is Group ==> final(table)@ == old(table)@ && final(commands)@
                        == old(commands)@
                },
            },
        decreases self,
    {
        match self {
            Action::Flip(oid, delta) => flip_piece(table, commands, *oid, *delta as i64),
            Action::Rotate(oid, dtheta) => rotate_piece(table, commands, *oid, *dtheta),
            Action::Create(pd) => create_piece(table, commands, *pd),
            Action::Delete(pd) => delete_piece(table, commands, pd.piece_id),
            Action::Clone(oid, source) => clone_piece(table, commands, *oid, *source),
            Action::Group(v) => {
                let ghost first = Stage { world: table@, events: commands@ };
                let mut i: usize = 0;
                while i < v.len()
                    invariant
                        i <= v.len(),
                        table@.wf(),
                        first.events.is_prefix_of(commands@),
                        committed_upto(v@, i as nat, first) == Ok::<Stage, ActionError>(
                            Stage { world: table@, events: commands@ },
                        ),
                    decreases v.len() - i,
                {
                    match v[i].commit_into(table, commands) {
                        Ok(()) => {},
                        Err(e) => {
                            proof {
                                lemma_failure_stays(v@, (i + 1) as nat, v@.len(), first);
                            }
                            return Err(e);
                        },
                    }
                    i += 1;
                }
                Ok(())
            },
        }
    }

    /// Carries the action out: `committed` says what that makes of the
    /// table and of the reports, which are added to `commands`. If a step
    /// fails, the table and `commands` are left as they were.
    pub fn commit(&self, table: &mut Table, commands: &mut Vec<Event>) -> (r: Result<
        (),
        ActionError,
    >)
        requires
            old(table)@.wf(),
        ensures
            final(table)@.wf(),
            match r {
                Ok(()) => committed(*self, Stage { world: old(table)@, events: old(commands)@ })
                    == Ok::<Stage, ActionError>(
                    Stage { world: final(table)@, events: final(commands)@ },
                ),
                Err(e) => {
                    &&& committed(*self, Stage { world: old(table)@, events: old(commands)@ })
                        == Err::<Stage, ActionError>(e)
                    &&& final(table)@ == old(table)@
                    &&& final(commands)@ == old(commands)@
                },
            },
    {
        match self {
            Action::Group(_) => {
                let reported: usize = commands.len();
                let mut scratch = table.duplicate();
                match self.commit_into(&mut scratch, commands) {
                    Ok(()) => {
                        *table = scratch;
                        Ok(())
                    },
                    Err(e) => {
                        commands.truncate(reported);
                        assert(commands@ =~= old(commands)@);
                        Err(e)
                    },
                }
            },
            _ => self.commit_into(table, commands),
        }
    }

    /// Undoes the action step by step. A group that fails leaves the steps
    /// before the failure undone.
    #[verifier::loop_isolation(false)]
    fn revert_into(&self, table: &mut Table, commands: &mut Vec<Event>) -> (r: Result<
        (),
        ActionError,
    >)
        requires
            old(table)@.wf(),
        ensures
            final(table)@.wf(),
            old(commands)@.is_prefix_of(final(commands)@),
            match r {
                Ok(()) => reverted(*self, Stage { world: old(table)@, events: old(commands)@ })
                    == Ok::<Stage, ActionError>(
                    Stage { world: final(table)@, events: final(commands)@ },
                ),
                Err(e) => {
                    &&& reverted(*self, Stage { world: old(table)@, events: old(commands)@ })
                        == Err::<Stage, ActionError>(e)
                    &&& self !is Group ==> final(table)@ == old(table)@ && final(commands)@
                        == old(commands)@
                },
            },
        decreases self,
    {
        match self {
            Action::Flip(oid, delta) => flip_piece(table, commands, *oid, -(*delta as i64)),
            Action::Rotate(oid, dtheta) => rotate_piece(table, commands, *oid, negate(*dtheta)),
            Action::Create(pd) => delete_piece(table, commands, pd.piece_id),
            Action::Delete(pd) => create_piece(table, commands, *pd),
            Action::Clone(oid, _) => delete_piece(table, commands, *oid),
            Action::Group(v) => {
                let ghost first = Stage { world: table@, events: commands@ };
                let mut n: usize = v.len();
                while n > 0
                    invariant
                        n <= v.len(),
                        table@.wf(),
                        first.events.is_prefix_of(commands@),
                        reverted_from(v@, v@.len(), first) == reverted_from(
                            v@,
                            n as nat,
                            Stage { world: table@, events: commands@ },
                        ),
                    decreases n,
                {
                    match v[n - 1].revert_into(table, commands) {
                        Ok(()) => {},
                        Err(e) => {
                            return Err(e);
                        },
                    }
                    n -= 1;
                }
                Ok(())
            },
        }
    }

    /// Undoes the action: `reverted` says what that makes of the table and
    /// of the reports, which are added to `commands`. If a step fails, the
    /// table and `commands` are left as they were.
    pub fn revert(&self, table: &mut Table, commands: &mut Vec<Event>) -> (r: Result<
        (),
        ActionError,
    >)
        requires
            old(table)@.wf(),
        ensures
            final(table)@.wf(),
            match r {
                Ok(()) => reverted(*self, Stage { world: old(table)@, events: old(commands)@ })
                    == Ok::<Stage, ActionError>(
                    Stage { world: final(table)@, events: final(commands)@ },
                ),
                Err(e) => {
                    &&& reverted(*self, Stage { world: old(table)@, events: old(commands)@ })
                        == Err::<Stage, ActionError>(e)
                    &&& final(table)@ == old(table)@
                    &&& final(commands)@ == old(commands)@
                },
            },
    {
        match self {
            Action::Group(_) => {
                let reported: usize = commands.len();
                let mut scratch = table.duplicate();
                match self.revert_into(&mut scratch, commands) {
                    Ok(()) => {
                        *table = scratch;
                        Ok(())
                    },
                    Err(e) => {
                        commands.truncate(reported);
                        assert(commands@ =~= old(commands)@);
                        Err(e)
                    },
                }
            },
            _ => self.revert_into(table, commands),
        }
    }
}

/// Turns the piece known by `oid` by `delta` steps round its faces.
fn flip_piece(table: &mut Table, commands: &mut Vec<Event>, oid: u32, delta: i64) -> (r: Result<
    (),
    ActionError,
>)
    requires
        old(table)@.wf(),
    ensures
        final(table)@.wf(),
        old(commands)@.is_prefix_of(final(commands)@),
        match r {
            Ok(()) => Stage { world: old(table)@, events: old(commands)@ }.flip(oid, delta as int)
                == Ok::<Stage, ActionError>(
                Stage { world: final(table)@, events: final(commands)@ },
            ),
            Err(e) => {
                &&& Stage { world: old(table)@, events: old(commands)@ }.flip(oid, delta as int)
                    == Err::<Stage, ActionError>(e)
                &&& final(table)@ == old(table)@
                &&& final(commands)@ == old(commands)@
            },
        },
{
    if !table.contains(oid) {
        return Err(ActionError::UnknownObjectId(oid));
    }
    let entity = table.flip(oid, delta);
    commands.push(Event::Flip(FlipEvent { entity, delta }));
    Ok(())
}

/// Reports that the piece known by `oid` is to be turned by `dtheta`.
fn rotate_piece(table: &mut Table, commands: &mut Vec<Event>, oid: u32, dtheta: u32) -> (r: Result<
    (),
    ActionError,
>)
    requires
        old(table)@.wf(),
    ensures
        final(table)@ == old(table)@,
        old(commands)@.is_prefix_of(final(commands)@),
        match r {
            Ok(()) => Stage { world: old(table)@, events: old(commands)@ }.rotate(oid, dtheta)
                == Ok::<Stage, ActionError>(
                Stage { world: final(table)@, events: final(commands)@ },
            ),
            Err(e) => {
                &&& Stage { world: old(table)@, events: old(commands)@ }.rotate(oid, dtheta)
                    == Err::<Stage, ActionError>(e)
                &&& final(commands)@ == old(commands)@
            },
        },
{
    match table.entity(oid) {
        Ok(entity) => {
            commands.push(Event::Rotate(RotateEvent { entity, dtheta }));
            Ok(())
        },
        Err(_) => Err(ActionError::UnknownObjectId(oid)),
    }
}

/// Puts the piece that `pd` describes on the table.
fn create_piece(table: &mut Table, commands: &mut Vec<Event>, pd: PieceData) -> (r: Result<
    (),
    ActionError,
>)
    requires
        old(table)@.wf(),
    ensures
        final(table)@.wf(),
        old(commands)@.is_prefix_of(final(commands)@),
        match r {
            Ok(()) => Stage { world: old(table)@, events: old(commands)@ }.create(pd) == Ok::<
                Stage,
                ActionError,
            >(Stage { world: final(table)@, events: final(commands)@ }),
            Err(e) => {
                &&& Stage { world: old(table)@, events: old(commands)@ }.create(pd) == Err::<
                    Stage,
                    ActionError,
                >(e)
                &&& final(table)@ == old(table)@
                &&& final(commands)@ == old(commands)@
            },
        },
{
    if pd.face_up >= pd.faces {
        return Err(ActionError::MalformedPieceData(pd.piece_id));
    }
    if table.contains(pd.piece_id) {
        return Err(ActionError::ObjectIdInUse(pd.piece_id));
    }
    let entity = table.spawn(
        Piece { id: pd.piece_id, faces: pd.faces, up: FaceUp(pd.face_up) },
    );
    commands.push(Event::Create(CreateEvent { entity, pd }));
    Ok(())
}

/// Takes the piece known by `oid` off the table.
fn delete_piece(table: &mut Table, commands: &mut Vec<Event>, oid: u32) -> (r: Result<
    (),
    ActionError,
>)
    requires
        old(table)@.wf(),
    ensures
        final(table)@.wf(),
        old(commands)@.is_prefix_of(final(commands)@),
        match r {
            Ok(()) => Stage { world: old(table)@, events: old(commands)@ }.delete(oid) == Ok::<
                Stage,
                ActionError,
            >(Stage { world: final(table)@, events: final(commands)@ }),
            Err(e) => {
                &&& Stage { world: old(table)@, events: old(commands)@ }.delete(oid) == Err::<
                    Stage,
                    ActionError,
                >(e)
                &&& final(table)@ == old(table)@
                &&& final(commands)@ == old(commands)@
            },
        },
{
    if !table.contains(oid) {
        return Err(ActionError::UnknownObjectId(oid));
    }
    let entity = table.despawn(oid);
    commands.push(Event::Delete(DeleteEvent { entity }));
    Ok(())
}

/// Puts a copy of the piece known by `source` on the table, known by `oid`.
fn clone_piece(table: &mut Table, commands: &mut Vec<Event>, oid: u32, source: u32) -> (r: Result<
    (),
    ActionError,
>)
    requires
        old(table)@.wf(),
    ensures
        final(table)@.wf(),
        old(commands)@.is_prefix_of(final(commands)@),
        match r {
            Ok(()) => Stage { world: old(table)@, events: old(commands)@ }.clone_piece(oid, source)
                == Ok::<Stage, ActionError>(
                Stage { world: final(table)@, events: final(commands)@ },
            ),
            Err(e) => {
                &&& Stage { world: old(table)@, events: old(commands)@ }.clone_piece(oid, source)
                    == Err::<Stage, ActionError>(e)
                &&& final(table)@ == old(table)@
                &&& final(commands)@ == old(commands)@
            },
        },
{
    let model: Piece = match table.piece(source) {
        Ok(p) => p,
        Err(_) => {
            return Err(ActionError::UnknownObjectId(source));
        },
    };
    if table.contains(oid) {
        return Err(ActionError::ObjectIdInUse(oid));
    }
    let entity = table.entity(source).unwrap();
    assert(table@.occupied(table@.index[source]));
    let clone = table.spawn(Piece { id: oid, ..model });
    commands.push(Event::Clone(CloneEvent { entity, clone, clone_id: oid }));
    Ok(())
}

// ---------------------------------------------------------------------------
// Laws of doing and undoing
// ---------------------------------------------------------------------------

/// Turning a piece and undoing that leaves the table as it was: the piece
/// shows the face that it showed before, whatever the number of steps and
/// however many faces it has. Two turns are reported, by the steps taken and
/// by as many the other way.
pub proof fn lemma_flip_undone(st: Stage, oid: u32, delta: i32)
    requires
        st.world.wf(),
        st.world.live(oid),
    ensures
        committed(Action::Flip(oid, delta), st) is Ok,
        reverted(Action::Flip(oid, delta), committed(Action::Flip(oid, delta), st)->Ok_0) == Ok::<
            Stage,
            ActionError,
        >(
            Stage {
                world: st.world,
                events: st.events.push(
                    Event::Flip(
                        FlipEvent { entity: st.world.index[oid] as usize, delta: delta as i64 },
                    ),
                ).push(
                    Event::Flip(
                        FlipEvent {
                            entity: st.world.index[oid] as usize,
                            delta: (-(delta as int)) as i64,
                        },
                    ),
                ),
            },
        ),
{
    let w = st.world;
    let entity = w.index[oid];
    let p = w.piece(oid);
    assert(w.index.contains_key(oid));
    assert(w.occupied(entity));
    crate::table::lemma_flip(w, oid, delta as int);
    crate::piece::lemma_turned_back(p.up.0 as int, p.faces as int, delta as int);
    let mid = committed(Action::Flip(oid, delta), st)->Ok_0;
    let end = reverted(Action::Flip(oid, delta), mid)->Ok_0;
    assert(mid.world.piece(oid).turned(-(delta as int)) == p);
    assert(end.world.slots =~= w.slots);
}

/// A rotation is undone by the opposite rotation of the same piece, and the
/// opposite of the opposite is the rotation itself. The table holds nothing
/// of how a piece lies and is left as it was.
pub proof fn lemma_rotate_undone(st: Stage, oid: u32, dtheta: u32)
    requires
        st.world.live(oid),
    ensures
        committed(Action::Rotate(oid, dtheta), st) is Ok,
        reverted(Action::Rotate(oid, dtheta), committed(Action::Rotate(oid, dtheta), st)->Ok_0)
            == Ok::<Stage, ActionError>(
            Stage {
                world: st.world,
                events: st.events.push(
                    Event::Rotate(RotateEvent { entity: st.world.index[oid] as usize, dtheta }),
                ).push(
                    Event::Rotate(
                        RotateEvent {
                            entity: st.world.index[oid] as usize,
                            dtheta: opposite(dtheta),
                        },
                    ),
                ),
            },
        ),
        opposite(opposite(dtheta)) == dtheta,
{
    crate::angle::lemma_opposite_involution(dtheta);
}

/// What creating does, undoing a deletion does, and what deleting does,
/// undoing a creation does.
pub proof fn lemma_create_mirrors_delete(st: Stage, pd: PieceData)
    ensures
        committed(Action::Create(pd), st) == reverted(Action::Delete(pd), st),
        committed(Action::Delete(pd), st) == reverted(Action::Create(pd), st),
{
}

/// Putting a piece on the table and undoing that leaves no piece known by
/// its number, and the pieces on the table as they were.
pub proof fn lemma_create_undone(st: Stage, pd: PieceData)
    requires
        st.world.wf(),
        committed(Action::Create(pd), st) is Ok,
    ensures
        committed(Action::Create(pd), st)->Ok_0.world.live(pd.piece_id),
        committed(Action::Create(pd), st)->Ok_0.world.piece(pd.piece_id) == pd.piece(),
        reverted(Action::Create(pd), committed(Action::Create(pd), st)->Ok_0) is Ok,
        ({
            let end = reverted(Action::Create(pd), committed(Action::Create(pd), st)->Ok_0)->Ok_0;
            &&& end.world.wf()
            &&& !end.world.live(pd.piece_id)
            &&& end.world.pieces() == st.world.pieces()
        }),
{
    let mid = committed(Action::Create(pd), st)->Ok_0;
    crate::table::lemma_spawn(st.world, pd.piece());
    assert(mid.world.pieces().contains_key(pd.piece_id));
    crate::table::lemma_despawn(mid.world, pd.piece_id);
    let end = reverted(Action::Create(pd), mid)->Ok_0;
    assert(end.world.pieces() =~= st.world.pieces());
}

/// Taking a piece off the table and undoing that puts a piece known by the
/// same number on the table, as the action describes it. If the action
/// describes the piece as it was, the pieces on the table are as they were.
pub proof fn lemma_delete_undone(st: Stage, pd: PieceData)
    requires
        st.world.wf(),
        st.world.live(pd.piece_id),
        pd.piece().valid(),
    ensures
        committed(Action::Delete(pd), st) is Ok,
        !committed(Action::Delete(pd), st)->Ok_0.world.live(pd.piece_id),
        reverted(Action::Delete(pd), committed(Action::Delete(pd), st)->Ok_0) is Ok,
        ({
            let end = reverted(Action::Delete(pd), committed(Action::Delete(pd), st)->Ok_0)->Ok_0;
            &&& end.world.wf()
            &&& end.world.live(pd.piece_id)
            &&& end.world.piece(pd.piece_id) == pd.piece()
            &&& end.world.pieces() == st.world.pieces().insert(pd.piece_id, pd.piece())
            &&& pd.piece() == st.world.piece(pd.piece_id) ==> end.world.pieces()
                == st.world.pieces()
        }),
{
    let mid = committed(Action::Delete(pd), st)->Ok_0;
    crate::table::lemma_despawn(st.world, pd.piece_id);
    crate::table::lemma_spawn(mid.world, pd.piece());
    let end = reverted(Action::Delete(pd), mid)->Ok_0;
    assert(end.world.pieces().contains_key(pd.piece_id));
    assert(end.world.pieces() =~= st.world.pieces().insert(pd.piece_id, pd.piece()));
    if pd.piece() == st.world.piece(pd.piece_id) {
        assert(st.world.pieces().contains_key(pd.piece_id));
        assert(end.world.pieces() =~= st.world.pieces());
    }
}

/// Copying a piece and undoing that leaves no piece known by the number of
/// the copy, and the pieces on the table as they were.
pub proof fn lemma_clone_undone(st: Stage, oid: u32, source: u32)
    requires
        st.world.wf(),
        committed(Action::Clone(oid, source), st) is Ok,
    ensures
        ({
            let mid = committed(Action::Clone(oid, source), st)->Ok_0;
            &&& mid.world.live(oid)
            &&& mid.world.piece(oid) == (Piece { id: oid, ..st.world.piece(source) })
            &&& mid.world.piece(source) == st.world.piece(source)
        }),
        reverted(Action::Clone(oid, source), committed(Action::Clone(oid, source), st)->Ok_0)
            is Ok,
        ({
            let end = reverted(
                Action::Clone(oid, source),
                committed(Action::Clone(oid, source), st)->Ok_0,
            )->Ok_0;
            &&& end.world.wf()
            &&& !end.world.live(oid)
            &&& end.world.pieces() == st.world.pieces()
        }),
{
    let w = st.world;
    let copy = Piece { id: oid, ..w.piece(source) };
    assert(w.index.contains_key(source));
    assert(w.occupied(w.index[source]));
    let mid = committed(Action::Clone(oid, source), st)->Ok_0;
    crate::table::lemma_spawn(w, copy);
    assert(mid.world.pieces().contains_key(oid));
    assert(mid.world.pieces().contains_key(source));
    crate::table::lemma_despawn(mid.world, oid);
    let end = reverted(Action::Clone(oid, source), mid)->Ok_0;
    assert(end.world.pieces() =~= w.pieces());
}

/// Once an action of a group has failed, the group has failed, and with
/// the failure of that action.
pub proof fn lemma_failure_stays(s: Seq<Action>, k: nat, n: nat, st: Stage)
    requires
        k <= n <= s.len(),
        committed_upto(s, k, st) is Err,
    ensures
        committed_upto(s, n, st) == committed_upto(s, k, st),
    decreases n,
{
    if k < n {
        lemma_failure_stays(s, k, (n - 1) as nat, st);
    }
}

/// A group is carried out by carrying out all its actions but the last, in
/// their order, and then the last; and undone by undoing the last and then
/// all the others in the opposite order.
pub proof fn lemma_group_steps(s: Seq<Action>, n: nat, st: Stage)
    requires
        0 < n <= s.len(),
    ensures
        committed_upto(s, n, st) == (match committed_upto(s, (n - 1) as nat, st) {
            Ok(mid) => committed(s[n - 1], mid),
            Err(e) => Err(e),
        }),
        reverted_from(s, n, st) == (match reverted(s[n - 1], st) {
            Ok(mid) => reverted_from(s, (n - 1) as nat, mid),
            Err(e) => Err(e),
        }),
        committed_upto(s, 0, st) == Ok::<Stage, ActionError>(st),
        reverted_from(s, 0, st) == Ok::<Stage, ActionError>(st),
{
}

/// A group of two is carried out first action first, and undone second
/// action first.
pub proof fn lemma_group_of_two(group: Action, a1: Action, a2: Action, st: Stage)
    requires
        group matches Action::Group(v) && v@ == seq![a1, a2],
    ensures
        committed(group, st) == (match committed(a1, st) {
            Ok(mid) => committed(a2, mid),
            Err(e) => Err(e),
        }),
        reverted(group, st) == (match reverted(a2, st) {
            Ok(mid) => reverted(a1, mid),
            Err(e) => Err(e),
        }),
{
    let s = group->Group_0@;
    lemma_group_steps(s, 2, st);
    lemma_group_steps(s, 1, st);
    match reverted(a2, st) {
        Ok(mid) => {
            lemma_group_steps(s, 1, mid);
            match reverted(a1, mid) {
                Ok(end) => lemma_group_steps(s, 1, end),
                Err(_) => {},
            }
        },
        Err(_) => {},
    }
}

/// Unwrapping changes neither what an action does nor how it is undone.
pub proof fn lemma_flatten_keeps_meaning(a: Action, st: Stage)
    ensures
        committed(a.flattened(), st) == committed(a, st),
        reverted(a.flattened(), st) == reverted(a, st),
{
    if a matches Action::Group(v) && v@.len() == 1 {
        let s = a->Group_0@;
        lemma_group_steps(s, 1, st);
        match reverted(s[0], st) {
            Ok(end) => lemma_group_steps(s, 1, end),
            Err(_) => {},
        }
    }
}

/// A group of one action that is not a group unwraps to what that action
/// unwraps to, which is the action; a group of two stays as it is; and so
/// does whatever is not a group.
pub proof fn lemma_flatten(group: Action, a: Action, b: Action, x: Action)
    requires
        x !is Group,
    ensures
        a !is Group && (group matches Action::Group(v) && v@ == seq![a]) ==> group.flattened()
            == a.flattened() && group.flattened() == a,
        (group matches Action::Group(v) && v@ == seq![a, b]) ==> group.flattened() == group,
        x.flattened() == x,
{
}

} // verus!
