//! From what a piece is asked to do to what is done.

use itertools::Itertools;
use vstd::prelude::*;

use crate::action::{committed, Action, ActionError, PieceData, Stage};
use crate::actionfunc::ActionFunc;
use crate::event::Event;
use crate::log::{handle_do, ActionLog};
use crate::object::{NextObjectId, ObjectId};
use crate::table::{Table, World};

verus! {

/// What answers a request of one kind.
#[derive(Clone, Copy, Debug, PartialEq, Eq, Structural)]
pub enum Observer {
    OnClone,
    OnDelete,
    OnFlip,
    OnRotate,
}

/// What answers requests of the kind of `action`.
pub open spec fn observer_of(action: ActionFunc) -> Observer {
    match action {
        ActionFunc::Clone => Observer::OnClone,
        ActionFunc::Delete => Observer::OnDelete,
        ActionFunc::Flip(_) => Observer::OnFlip,
        ActionFunc::Rotate(_) => Observer::OnRotate,
    }
}

/// Whether something of the kind of `s[i]` stands before it in `s`.
pub open spec fn seen_before(s: Seq<ActionFunc>, i: int) -> bool {
    exists|j: int| 0 <= j < i && #[trigger] s[j].kind() == s[i].kind()
}

/// The first of each kind in `s`, in the order of `s`.
pub open spec fn one_of_each_kind(s: Seq<ActionFunc>) -> Seq<ActionFunc>
    decreases s.len(),
{
    if s.len() == 0 {
        Seq::empty()
    } else if seen_before(s, s.len() - 1) {
        one_of_each_kind(s.drop_last())
    } else {
        one_of_each_kind(s.drop_last()).push(s.last())
    }
}

/// `Itertools::unique_by`, with the kind as the key, on the actions in
/// their order. The adaptor hands on an item if and only if no item before
/// it had its key, so what is collected is the first action of each kind, in
/// the order in which they stood.
#[verifier::external_body]
fn unique_by_kind(actions: Vec<ActionFunc>) -> (r: Vec<ActionFunc>)
    ensures
        r@ == one_of_each_kind(actions@),
{
    actions.into_iter().unique_by(|a| a.kind()).collect()
}

/// Whether something of kind `k` stands in `s`.
pub open spec fn has_kind(s: Seq<ActionFunc>, k: u8) -> bool {
    exists|i: int| 0 <= i < s.len() && (#[trigger] s[i]).kind() == k
}

/// Whether no two in `s` are of the same kind.
pub open spec fn kinds_differ(s: Seq<ActionFunc>) -> bool {
    forall|i: int, j: int| 0 <= i < j < s.len() ==> (#[trigger] s[i]).kind() != (#[trigger] s[j]).kind()
}

/// The first of each kind are of the kinds that there are, no more and no less.
pub proof fn lemma_same_kinds(s: Seq<ActionFunc>, k: u8)
    ensures
        has_kind(one_of_each_kind(s), k) == has_kind(s, k),
    decreases s.len(),
{
    let r = one_of_each_kind(s);
    if s.len() > 0 {
        let before = s.drop_last();
        let rb = one_of_each_kind(before);
        let n = s.len() - 1;
        lemma_same_kinds(before, k);
        if has_kind(r, k) {
            let x = choose|x: int| 0 <= x < r.len() && (#[trigger] r[x]).kind() == k;
            if x < rb.len() {
                assert(rb[x].kind() == k);
                let i = choose|i: int| 0 <= i < before.len() && (#[trigger] before[i]).kind() == k;
                assert(s[i].kind() == k);
            } else {
                assert(s[n].kind() == k);
            }
        }
        if has_kind(s, k) {
            let i = choose|i: int| 0 <= i < s.len() && (#[trigger] s[i]).kind() == k;
            if i < n || seen_before(s, n) {
                let j = if i < n {
                    i
                } else {
                    choose|j: int| 0 <= j < n && #[trigger] s[j].kind() == s[n].kind()
                };
                assert(before[j].kind() == k);
                let x = choose|x: int| 0 <= x < rb.len() && (#[trigger] rb[x]).kind() == k;
                assert(r[x].kind() == k);
            } else {
                assert(r[rb.len() as int].kind() == k);
            }
        }
    }
}

/// No two of the first of each kind are of the same kind, so they are four
/// at most.
pub proof fn lemma_kinds_differ(s: Seq<ActionFunc>)
    ensures
        kinds_differ(one_of_each_kind(s)),
        one_of_each_kind(s).len() <= 4,
    decreases s.len(),
{
    let r = one_of_each_kind(s);
    if s.len() > 0 {
        let before = s.drop_last();
        let rb = one_of_each_kind(before);
        let n = s.len() - 1;
        lemma_kinds_differ(before);
        if !seen_before(s, n) {
            assert forall|i: int, j: int| 0 <= i < j < r.len() implies (#[trigger] r[i]).kind() != (
            #[trigger] r[j]).kind() by {
                if j < rb.len() {
                    assert(rb[i].kind() != rb[j].kind());
                } else {
                    lemma_same_kinds(before, s[n].kind());
                    if rb[i].kind() == s[n].kind() {
                        assert(has_kind(rb, s[n].kind()));
                        let x = choose|x: int|
                            0 <= x < before.len() && (#[trigger] before[x]).kind() == s[n].kind();
                        assert(s[x].kind() == s[n].kind());
                    }
                }
            }
        }
    }
    if r.len() > 4 {
        // Five of four kinds: two are of the same kind.
        let (a, b, c, d, e) = (r[0].kind(), r[1].kind(), r[2].kind(), r[3].kind(), r[4].kind());
        assert(a < 4 && b < 4 && c < 4 && d < 4 && e < 4);
    }
}

/// What answers requests of the kind of `action`.
pub fn observer(action: ActionFunc) -> (r: Observer)
    ensures
        r == observer_of(action),
{
    match action {
        ActionFunc::Clone => Observer::OnClone,
        ActionFunc::Delete => Observer::OnDelete,
        ActionFunc::Flip(_) => Observer::OnFlip,
        ActionFunc::Rotate(_) => Observer::OnRotate,
    }
}

/// Adds what answers requests of the kind of `action`.
pub fn add_action_observer(action: ActionFunc, ec: &mut Vec<Observer>)
    ensures
        final(ec)@ == old(ec)@.push(observer_of(action)),
{
    ec.push(observer(action));
}

/// Adds what answers the requests among `actions`, once for each kind
/// among them, in the order in which the kinds first stand.
pub fn add_action_observers(actions: Vec<ActionFunc>, commands: &mut Vec<Observer>)
    ensures
        final(commands)@ == old(commands)@ + one_of_each_kind(actions@).map_values(
            |a: ActionFunc| observer_of(a),
        ),
        final(commands)@.len() <= old(commands)@.len() + 4,
{
    let once = unique_by_kind(actions);
    proof {
        lemma_kinds_differ(actions@);
    }
    let ghost added = once@.map_values(|a: ActionFunc| observer_of(a));
    let mut i: usize = 0;
    while i < once.len()
        invariant
            i <= once.len(),
            added == once@.map_values(|a: ActionFunc| observer_of(a)),
            commands@ == old(commands)@ + added.take(i as int),
        decreases once.len() - i,
    {
        add_action_observer(once[i], commands);
        assert(added.take(i + 1) =~= added.take(i as int).push(observer_of(once@[i as int])));
        i += 1;
    }
    assert(added.take(i as int) =~= added);
}

/// The action that asking the piece known by `entity` for `action` stands
/// for, and the counter after it: a copy gets the number that the counter
/// hands out, and a deletion keeps the piece as it is now.
pub open spec fn requested(entity: ObjectId, action: ActionFunc, world: World, next: NextObjectId)
    -> Result<(Action, NextObjectId), ActionError> {
    match action {
        ActionFunc::Clone => if next.0 == u32::MAX {
            Err(ActionError::OutOfObjectIds)
        } else {
            Ok((Action::Clone(next.0, entity.0), NextObjectId((next.0 + 1) as u32)))
        },
        ActionFunc::Delete => if world.live(entity.0) {
            Ok((Action::Delete(PieceData::of(world.piece(entity.0))), next))
        } else {
            Err(ActionError::UnknownObjectId(entity.0))
        },
        ActionFunc::Flip(delta) => Ok((Action::Flip(entity.0, delta), next)),
        ActionFunc::Rotate(angle) => Ok((Action::Rotate(entity.0, angle.0), next)),
    }
}

/// The action that a request stands for is truthful on the table on which
/// it was asked for: a deletion keeps the piece as it is there.
pub proof fn lemma_requested_truthful(
    entity: ObjectId,
    action: ActionFunc,
    st: Stage,
    next: NextObjectId,
)
    requires
        st.world.wf(),
    ensures
        requested(entity, action, st.world, next) matches Ok((a, _)) ==> crate::inverse::truthful(
            a,
            st,
        ),
{
    if st.world.live(entity.0) {
        assert(st.world.index.contains_key(entity.0));
    }
}

/// Makes the action that asking the piece known by `entity` for `action`
/// stands for.
pub fn request(entity: ObjectId, action: ActionFunc, table: &Table, next: &mut NextObjectId) -> (r:
    Result<Action, ActionError>)
    requires
        table@.wf(),
    ensures
        match r {
            Ok(a) => requested(entity, action, table@, *old(next)) == Ok::<
                (Action, NextObjectId),
                ActionError,
            >((a, *final(next))),
            Err(e) => requested(entity, action, table@, *old(next)) == Err::<
                (Action, NextObjectId),
                ActionError,
            >(e) && *final(next) == *old(next),
        },
{
    match action {
        ActionFunc::Clone => match next.allocate() {
            Some(oid) => Ok(Action::Clone(oid.0, entity.0)),
            None => Err(ActionError::OutOfObjectIds),
        },
        ActionFunc::Delete => match table.piece(entity.0) {
            Ok(p) => Ok(
                Action::Delete(PieceData { piece_id: p.id, faces: p.faces, face_up: p.up.0 }),
            ),
            Err(_) => Err(ActionError::UnknownObjectId(entity.0)),
        },
        ActionFunc::Flip(delta) => Ok(Action::Flip(entity.0, delta)),
        ActionFunc::Rotate(angle) => Ok(Action::Rotate(entity.0, angle.0)),
    }
}

/// Asks the piece known by `entity` for `action`: makes the action that
/// this stands for, carries it out and records it as done. A number handed
/// out for a copy stays handed out if the copy cannot be made.
///
/// If the log was a true record of the table, it is one afterwards.
pub fn trigger_action(
    entity: ObjectId,
    action: ActionFunc,
    log: &mut ActionLog,
    table: &mut Table,
    next: &mut NextObjectId,
    commands: &mut Vec<Event>,
) -> (r: Result<(), ActionError>)
    requires
        old(table)@.wf(),
    ensures
        final(table)@.wf(),
        forall|start: World| #[trigger]
            crate::session::recorded(start, old(log)@, old(table)@) ==> crate::session::recorded(
                start,
                final(log)@,
                final(table)@,
            ),
        match requested(entity, action, old(table)@, *old(next)) {
            Ok((a, counter)) => {
                &&& *final(next) == counter
                &&& match r {
                    Ok(()) => {
                        &&& committed(a, Stage { world: old(table)@, events: old(commands)@ })
                            == Ok::<Stage, ActionError>(
                            Stage { world: final(table)@, events: final(commands)@ },
                        )
                        &&& final(log)@ == old(log)@.did(a)
                    },
                    Err(e) => {
                        &&& committed(a, Stage { world: old(table)@, events: old(commands)@ })
                            == Err::<Stage, ActionError>(e)
                        &&& final(table)@ == old(table)@
                        &&& final(commands)@ == old(commands)@
                        &&& final(log)@ == old(log)@
                    },
                }
            },
            Err(e) => {
                &&& r == Err::<(), ActionError>(e)
                &&& *final(next) == *old(next)
                &&& final(table)@ == old(table)@
                &&& final(commands)@ == old(commands)@
                &&& final(log)@ == old(log)@
            },
        },
{
    proof {
        lemma_requested_truthful(
            entity,
            action,
            Stage { world: table@, events: commands@ },
            *next,
        );
    }
    match request(entity, action, table, next) {
        Ok(a) => handle_do(log, table, a, commands),
        Err(e) => Err(e),
    }
}

} // verus!
