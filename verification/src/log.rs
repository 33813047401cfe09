//! What was done, in order, so that it can be undone and done again.
//!
//! History is a line: doing something new after undoing forgets what was
//! undone.

use vstd::prelude::*;

use crate::action::{committed, reverted, Action, ActionError, Stage};
use crate::event::Event;
use crate::inverse::truthful;
use crate::session::{
    lemma_recorded_after_do, lemma_recorded_after_redo, lemma_recorded_after_undo, recorded,
};
use crate::table::{Table, World};

verus! {

/// What a log holds.
pub struct History {
    /// What was done and not undone, the latest last.
    pub done: Seq<Action>,
    /// What was undone and not done again, the latest last.
    pub undone: Seq<Action>,
}

impl History {
    /// Nothing done, nothing undone.
    pub open spec fn empty() -> History {
        History { done: Seq::empty(), undone: Seq::empty() }
    }

    /// The log after `a` was done.
    pub open spec fn did(self, a: Action) -> History {
        History { done: self.done.push(a), undone: Seq::empty() }
    }

    /// The log after the latest action done was undone, if there was one.
    pub open spec fn undid(self) -> History {
        if self.done.len() == 0 {
            self
        } else {
            History { done: self.done.drop_last(), undone: self.undone.push(self.done.last()) }
        }
    }

    /// The log after the latest action undone was done again, if there was one.
    pub open spec fn redid(self) -> History {
        if self.undone.len() == 0 {
            self
        } else {
            History { done: self.done.push(self.undone.last()), undone: self.undone.drop_last() }
        }
    }

    /// All that the log holds in the order in which it was done: what is
    /// done, and then what is undone, the latest undone first.
    pub open spec fn timeline(self) -> Seq<Action> {
        self.done + self.undone.reverse()
    }

    /// The log after the latest `k` actions done were undone.
    pub open spec fn back(self, k: int) -> History {
        History {
            done: self.done.take(self.done.len() - k),
            undone: self.undone + self.done.skip(self.done.len() - k).reverse(),
        }
    }
}

/// The actions of a session.
#[derive(Debug)]
pub struct ActionLog {
    done: Vec<Action>,
    undone: Vec<Action>,
}

impl View for ActionLog {
    type V = History;

    closed spec fn view(&self) -> History {
        History { done: self.done@, undone: self.undone@ }
    }
}

impl Default for ActionLog {
    /// A log of nothing.
    fn default() -> (r: ActionLog)
        ensures
            r@ == History::empty(),
    {
        ActionLog::new()
    }
}

impl ActionLog {
    /// A log of nothing.
    pub fn new() -> (r: ActionLog)
        ensures
            r@ == History::empty(),
    {
        ActionLog { done: Vec::new(), undone: Vec::new() }
    }

    /// What was done and not undone, the latest last.
    pub fn done(&self) -> (r: &Vec<Action>)
        ensures
            r@ == self@.done,
    {
        &self.done
    }

    /// What was undone and not done again, the latest last.
    pub fn undone(&self) -> (r: &Vec<Action>)
        ensures
            r@ == self@.undone,
    {
        &self.undone
    }
}

/// Carries `a` out and records it as done; what was undone is forgotten.
/// If `a` fails, nothing is changed and `a` is dropped.
///
/// If the log was a true record of the table and `a` is truthful, the log is
/// a true record of the table afterwards.
pub fn handle_do(log: &mut ActionLog, table: &mut Table, a: Action, commands: &mut Vec<Event>) -> (r:
    Result<(), ActionError>)
    requires
        old(table)@.wf(),
    ensures
        final(table)@.wf(),
        forall|start: World| #[trigger]
            recorded(start, old(log)@, old(table)@) && truthful(
                a,
                Stage { world: old(table)@, events: old(commands)@ },
            ) ==> recorded(start, final(log)@, final(table)@),
        match r {
            Ok(()) => {
                &&& committed(a, Stage { world: old(table)@, events: old(commands)@ }) == Ok::<
                    Stage,
                    ActionError,
                >(Stage { world: final(table)@, events: final(commands)@ })
                &&& final(log)@ == old(log)@.did(a)
            },
            Err(e) => {
                &&& committed(a, Stage { world: old(table)@, events: old(commands)@ }) == Err::<
                    Stage,
                    ActionError,
                >(e)
                &&& final(table)@ == old(table)@
                &&& final(commands)@ == old(commands)@
                &&& final(log)@ == old(log)@
            },
        },
{
    match a.commit(table, commands) {
        Ok(()) => {
            log.undone.clear();
            log.done.push(a);
            proof {
                let before = Stage { world: old(table)@, events: old(commands)@ };
                assert forall|start: World| #[trigger]
                    recorded(start, old(log)@, old(table)@) && truthful(
                        a,
                        before,
                    ) implies recorded(start, log@, table@) by {
                    lemma_recorded_after_do(start, old(log)@, before, a);
                }
            }
            Ok(())
        },
        Err(e) => Err(e),
    }
}

/// Undoes the latest action done, if there is one, and records it as undone.
/// If undoing it fails, nothing is changed.
///
/// If the log is a true record of the table, undoing succeeds, and the log
/// is a true record of the table afterwards.
pub fn handle_undo(log: &mut ActionLog, table: &mut Table, commands: &mut Vec<Event>) -> (r: Result<
    (),
    ActionError,
>)
    requires
        old(table)@.wf(),
    ensures
        final(table)@.wf(),
        forall|start: World| #[trigger]
            recorded(start, old(log)@, old(table)@) ==> r is Ok && recorded(
                start,
                final(log)@,
                final(table)@,
            ),
        match r {
            Ok(()) => {
                &&& final(log)@ == old(log)@.undid()
                &&& if old(log)@.done.len() == 0 {
                    final(table)@ == old(table)@ && final(commands)@ == old(commands)@
                } else {
                    reverted(
                        old(log)@.done.last(),
                        Stage { world: old(table)@, events: old(commands)@ },
                    ) == Ok::<Stage, ActionError>(
                        Stage { world: final(table)@, events: final(commands)@ },
                    )
                }
            },
            Err(e) => {
                &&& old(log)@.done.len() > 0
                &&& reverted(
                    old(log)@.done.last(),
                    Stage { world: old(table)@, events: old(commands)@ },
                ) == Err::<Stage, ActionError>(e)
                &&& final(table)@ == old(table)@
                &&& final(commands)@ == old(commands)@
                &&& final(log)@ == old(log)@
            },
        },
{
    proof {
        let before = Stage { world: table@, events: commands@ };
        assert forall|start: World| #[trigger] recorded(start, log@, table@) implies (log@.done.len()
            > 0 ==> reverted(log@.done.last(), before) is Ok && recorded(
            start,
            log@.undid(),
            reverted(log@.done.last(), before)->Ok_0.world,
        )) by {
            if log@.done.len() > 0 {
                lemma_recorded_after_undo(start, log@, before);
            }
        }
    }
    match log.done.pop() {
        None => Ok(()),
        Some(a) => match a.revert(table, commands) {
            Ok(()) => {
                log.undone.push(a);
                Ok(())
            },
            Err(e) => {
                log.done.push(a);
                assert(log.done@ =~= old(log).done@);
                Err(e)
            },
        },
    }
}

/// Does the latest action undone again, if there is one, and records it as
/// done. If doing it fails, nothing is changed.
///
/// If the log is a true record of the table, doing again succeeds, and the
/// log is a true record of the table afterwards.
pub fn handle_redo(log: &mut ActionLog, table: &mut Table, commands: &mut Vec<Event>) -> (r: Result<
    (),
    ActionError,
>)
    requires
        old(table)@.wf(),
    ensures
        final(table)@.wf(),
        forall|start: World| #[trigger]
            recorded(start, old(log)@, old(table)@) ==> r is Ok && recorded(
                start,
                final(log)@,
                final(table)@,
            ),
        match r {
            Ok(()) => {
                &&& final(log)@ == old(log)@.redid()
                &&& if old(log)@.undone.len() == 0 {
                    final(table)@ == old(table)@ && final(commands)@ == old(commands)@
                } else {
                    committed(
                        old(log)@.undone.last(),
                        Stage { world: old(table)@, events: old(commands)@ },
                    ) == Ok::<Stage, ActionError>(
                        Stage { world: final(table)@, events: final(commands)@ },
                    )
                }
            },
            Err(e) => {
                &&& old(log)@.undone.len() > 0
                &&& committed(
                    old(log)@.undone.last(),
                    Stage { world: old(table)@, events: old(commands)@ },
                ) == Err::<Stage, ActionError>(e)
                &&& final(table)@ == old(table)@
                &&& final(commands)@ == old(commands)@
                &&& final(log)@ == old(log)@
            },
        },
{
    proof {
        let before = Stage { world: table@, events: commands@ };
        assert forall|start: World| #[trigger] recorded(start, log@, table@) implies (
        log@.undone.len() > 0 ==> committed(log@.undone.last(), before) is Ok && recorded(
            start,
            log@.redid(),
            committed(log@.undone.last(), before)->Ok_0.world,
        )) by {
            if log@.undone.len() > 0 {
                lemma_recorded_after_redo(start, log@, before);
            }
        }
    }
    match log.undone.pop() {
        None => Ok(()),
        Some(a) => match a.commit(table, commands) {
            Ok(()) => {
                log.done.push(a);
                Ok(())
            },
            Err(e) => {
                log.undone.push(a);
                assert(log.undone@ =~= old(log).undone@);
                Err(e)
            },
        },
    }
}

// ---------------------------------------------------------------------------
// Laws of the log
// ---------------------------------------------------------------------------

/// A step back or forth in the history.
pub enum Step {
    Undo,
    Redo,
}

/// The log after the steps of `steps`, in their order.
pub open spec fn replayed(h: History, steps: Seq<Step>) -> History
    decreases steps.len(),
{
    if steps.len() == 0 {
        h
    } else {
        match steps.last() {
            Step::Undo => replayed(h, steps.drop_last()).undid(),
            Step::Redo => replayed(h, steps.drop_last()).redid(),
        }
    }
}

/// How many more steps back than forth `steps` holds.
pub open spec fn depth(steps: Seq<Step>) -> int
    decreases steps.len(),
{
    if steps.len() == 0 {
        0
    } else {
        match steps.last() {
            Step::Undo => depth(steps.drop_last()) + 1,
            Step::Redo => depth(steps.drop_last()) - 1,
        }
    }
}

/// Whether every step forth in `steps` answers an earlier step back, and no
/// more steps are taken back at any time than `limit`.
pub open spec fn nested(steps: Seq<Step>, limit: int) -> bool {
    forall|k: int| 0 <= k <= steps.len() ==> 0 <= #[trigger] depth(steps.take(k)) <= limit
}

/// Doing two things, undoing the second and doing a third leaves the first
/// and the third done and nothing to do again: what was undone is gone.
pub proof fn lemma_linear_history(a1: Action, a2: Action, a3: Action)
    ensures
        History::empty().did(a1).did(a2).undid().did(a3) == (History {
            done: seq![a1, a3],
            undone: Seq::empty(),
        }),
{
    let h = History::empty().did(a1).did(a2).undid().did(a3);
    assert(h.done =~= seq![a1, a3]);
}

/// Doing something new forgets whatever was undone, whatever the log held.
pub proof fn lemma_do_forgets(h: History, a: Action)
    ensures
        h.did(a).undone.len() == 0,
        h.did(a).redid() == h.did(a),
        h.did(a).undid() == (History { done: h.done, undone: seq![a] }),
{
    assert(h.did(a).undid().done =~= h.done);
    assert(h.did(a).undid().undone =~= seq![a]);
}

/// Undoing and then doing again changes nothing, where there was something
/// to undo.
pub proof fn lemma_undo_redo(h: History)
    requires
        h.done.len() > 0,
    ensures
        h.undid().redid() == h,
{
    let u = h.undid();
    assert(u.redid().done =~= h.done);
    assert(u.redid().undone =~= h.undone);
}

/// Steps back and forth move actions between what is done and what is
/// undone, and neither drop an action nor change the order of any two.
pub proof fn lemma_timeline(h: History)
    ensures
        h.undid().timeline() == h.timeline(),
        h.redid().timeline() == h.timeline(),
        h.undid().done.len() + h.undid().undone.len() == h.done.len() + h.undone.len(),
        h.redid().done.len() + h.redid().undone.len() == h.done.len() + h.undone.len(),
{
    assert(h.undid().timeline() =~= h.timeline());
    assert(h.redid().timeline() =~= h.timeline());
}

/// After any steps back and forth in which every step forth answers an
/// earlier step back, and which never go back further than there are
/// actions done, the log is as if the steps back that are not yet answered
/// had been taken in a row. So once every step back is answered, what is
/// done and what is undone are the same actions in the same order as before
/// the first step.
pub proof fn lemma_steps_conserve(h: History, steps: Seq<Step>)
    requires
        nested(steps, h.done.len() as int),
    ensures
        replayed(h, steps) == h.back(depth(steps)),
        depth(steps) == 0 ==> replayed(h, steps) == h,
    decreases steps.len(),
{
    let n = h.done.len() as int;
    if steps.len() == 0 {
        assert(h.back(0).done =~= h.done);
        assert(h.back(0).undone =~= h.undone);
    } else {
        let before = steps.drop_last();
        assert forall|k: int| 0 <= k <= before.len() implies 0 <= #[trigger] depth(
            before.take(k),
        ) <= n by {
            assert(before.take(k) =~= steps.take(k));
        }
        lemma_steps_conserve(h, before);
        let d = depth(before);
        assert(steps.take(steps.len() as int) =~= steps);
        assert(before.take(before.len() as int) =~= before);
        assert(0 <= depth(steps.take(steps.len() as int)) <= n);
        assert(0 <= depth(before.take(before.len() as int)) <= n);
        let mid = h.back(d);
        match steps.last() {
            Step::Undo => {
                // One more step back: the latest action still done moves over.
                assert(mid.undid().done =~= h.back(d + 1).done);
                assert(h.done.skip(n - d - 1).reverse() =~= h.done.skip(n - d).reverse().push(
                    h.done[n - d - 1],
                ));
                assert(mid.undid().undone =~= h.back(d + 1).undone);
            },
            Step::Redo => {
                // One step forth: the latest action undone moves back.
                assert(h.done.skip(n - d).reverse() =~= h.done.skip(n - d + 1).reverse().push(
                    h.done[n - d],
                ));
                assert(mid.redid().done =~= h.back(d - 1).done);
                assert(mid.redid().undone =~= h.back(d - 1).undone);
            },
        }
        if depth(steps) == 0 {
            assert(h.back(0).done =~= h.done);
            assert(h.back(0).undone =~= h.undone);
        }
    }
}

} // verus!
