//! A table and its log, kept together.
//!
//! If every action is carried out through the log, and every deletion among
//! them describes its piece as it is, the log is a true record of the table:
//! carrying out what the log holds, in the order in which it was done for
//! the first time, leads from the table at the start of the session to the
//! table as it is. Then whatever is done can be undone, and whatever is
//! undone can be done again: undoing and doing again never fail.

use vstd::prelude::*;

use crate::action::{committed, committed_upto, reverted, Action, Stage};
use crate::inverse::{
    alike, lemma_committed_alike, lemma_committed_upto_alike, lemma_reverted_alike,
    lemma_truthful_alike, lemma_undone, truthful, truthful_upto,
};
use crate::log::History;
use crate::table::World;

verus! {

/// The stage on which a session starts: the table at the start, and nothing
/// reported.
pub open spec fn opening(start: World) -> Stage {
    Stage { world: start, events: Seq::empty() }
}

/// Whether `h` is a true record of how the table came from `start` to `now`:
/// all that `h` holds can be carried out from `start` in the order in which
/// it was done, truthfully, and what is done and not undone leads to the
/// pieces that are on the table now.
pub open spec fn recorded(start: World, h: History, now: World) -> bool {
    let all = h.timeline();
    &&& start.wf()
    &&& committed_upto(all, all.len(), opening(start)) is Ok
    &&& truthful_upto(all, all.len(), opening(start))
    &&& committed_upto(all, h.done.len(), opening(start)) matches Ok(st) && alike(st.world, now)
}

/// What the first `n` of some actions do does not depend on the actions
/// after them.
pub proof fn lemma_upto_prefix(s: Seq<Action>, t: Seq<Action>, n: nat, st: Stage)
    requires
        n <= s.len(),
        n <= t.len(),
        s.take(n as int) == t.take(n as int),
    ensures
        committed_upto(s, n, st) == committed_upto(t, n, st),
        truthful_upto(s, n, st) == truthful_upto(t, n, st),
    decreases n,
{
    if n > 0 {
        assert(s.take(n as int).take(n - 1) =~= s.take(n - 1));
        assert(t.take(n as int).take(n - 1) =~= t.take(n - 1));
        lemma_upto_prefix(s, t, (n - 1) as nat, st);
        assert(s[n - 1] == s.take(n as int)[n - 1]);
        assert(t[n - 1] == t.take(n as int)[n - 1]);
    }
}

/// If all of some actions can be carried out, so can the first `n` of them.
pub proof fn lemma_upto_ok(s: Seq<Action>, n: nat, st: Stage)
    requires
        n <= s.len(),
        committed_upto(s, s.len(), st) is Ok,
        truthful_upto(s, s.len(), st),
    ensures
        committed_upto(s, n, st) is Ok,
        truthful_upto(s, n, st),
    decreases s.len() - n,
{
    if n < s.len() {
        lemma_upto_ok(s, n + 1, st);
    }
}

/// What has been carried out from a well-formed table is well formed.
proof fn lemma_upto_wf(s: Seq<Action>, n: nat, st: Stage)
    requires
        st.world.wf(),
    ensures
        committed_upto(s, n, st) matches Ok(end) ==> end.world.wf(),
{
    lemma_committed_upto_alike(s, n, st, st);
}

/// A session starts with a true record: the empty log.
pub proof fn lemma_recorded_at_start(start: World)
    requires
        start.wf(),
    ensures
        recorded(start, History::empty(), start),
{
    assert(History::empty().timeline() =~= Seq::<Action>::empty());
}

/// Doing something truthful through the log keeps the record true.
pub proof fn lemma_recorded_after_do(start: World, h: History, now: Stage, a: Action)
    requires
        recorded(start, h, now.world),
        committed(a, now) is Ok,
        truthful(a, now),
    ensures
        recorded(start, h.did(a), committed(a, now)->Ok_0.world),
{
    let all = h.timeline();
    let n = h.done.len();
    let next = h.did(a).timeline();
    let first = opening(start);
    assert(next =~= h.done.push(a));
    assert(next.take(n as int) =~= all.take(n as int));
    lemma_upto_ok(all, n, first);
    lemma_upto_prefix(next, all, n, first);
    let before = committed_upto(next, n, first)->Ok_0;
    lemma_committed_alike(a, before, now);
    lemma_truthful_alike(a, before, now);
}

/// With a true record, undoing the latest action done succeeds, and keeps
/// the record true.
pub proof fn lemma_recorded_after_undo(start: World, h: History, now: Stage)
    requires
        recorded(start, h, now.world),
        h.done.len() > 0,
    ensures
        reverted(h.done.last(), now) matches Ok(end) && recorded(start, h.undid(), end.world),
{
    let all = h.timeline();
    let n = h.done.len();
    let first = opening(start);
    let a = h.done.last();
    assert(all[n - 1] == a);
    crate::log::lemma_timeline(h);
    lemma_upto_ok(all, n, first);
    lemma_upto_ok(all, (n - 1) as nat, first);
    let before = committed_upto(all, (n - 1) as nat, first)->Ok_0;
    let after = committed_upto(all, n, first)->Ok_0;
    lemma_upto_wf(all, (n - 1) as nat, first);
    // Undone where the record leads, the action leaves what was there before it;
    lemma_undone(a, before);
    // undone on the table as it is, it leaves the same pieces.
    lemma_reverted_alike(a, after, now);
}

/// With a true record, doing the latest action undone again succeeds, and
/// keeps the record true.
pub proof fn lemma_recorded_after_redo(start: World, h: History, now: Stage)
    requires
        recorded(start, h, now.world),
        h.undone.len() > 0,
    ensures
        committed(h.undone.last(), now) matches Ok(end) && recorded(start, h.redid(), end.world),
{
    let all = h.timeline();
    let n = h.done.len();
    let first = opening(start);
    let a = h.undone.last();
    assert(all[n as int] == a);
    crate::log::lemma_timeline(h);
    lemma_upto_ok(all, n, first);
    lemma_upto_ok(all, n + 1, first);
    let before = committed_upto(all, n, first)->Ok_0;
    lemma_committed_alike(a, before, now);
}

} // verus!
