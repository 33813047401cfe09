//! Undoing undoes.
//!
//! What an action does to the pieces on the table, undoing it takes back,
//! whatever the action: a single step, a group, or groups within groups.
//! The pieces are then the same, each with the number it had and showing the
//! face it showed. Where they are kept may have changed, since a piece that
//! is put back on the table gets a new handle; so the laws here speak of the
//! pieces by their numbers.

use vstd::prelude::*;

use crate::action::{
    committed, committed_upto, reverted, reverted_from, Action, ActionError, PieceData, Stage,
};
use crate::piece::Piece;
use crate::table::{lemma_despawn, lemma_flip, lemma_spawn, World};

verus! {

/// Whether two tables hold the same pieces, wherever they keep them.
pub open spec fn alike(a: World, b: World) -> bool {
    a.wf() && b.wf() && a.pieces() == b.pieces()
}

/// Whether two outcomes are the same failure, or tables with the same pieces.
pub open spec fn same_outcome(p: Result<Stage, ActionError>, q: Result<Stage, ActionError>) -> bool {
    match (p, q) {
        (Ok(x), Ok(y)) => alike(x.world, y.world),
        (Err(e), Err(f)) => e == f,
        _ => false,
    }
}

/// Whether every deletion in `a` describes its piece as the piece is when
/// the turn of the deletion comes, if `a` is carried out on `st`.
pub open spec fn truthful(a: Action, st: Stage) -> bool
    decreases a, 0nat,
{
    match a {
        Action::Delete(pd) => st.world.live(pd.piece_id) ==> st.world.piece(pd.piece_id)
            == pd.piece(),
        Action::Group(v) => truthful_upto(v@, v@.len(), st),
        _ => true,
    }
}

/// Whether each of the first `n` actions of `s` is truthful when its turn comes.
pub open spec fn truthful_upto(s: Seq<Action>, n: nat, st: Stage) -> bool
    decreases s, n,
{
    if n == 0 || n > s.len() {
        true
    } else {
        &&& truthful_upto(s, (n - 1) as nat, st)
        &&& committed_upto(s, (n - 1) as nat, st) matches Ok(mid) ==> truthful(s[n - 1], mid)
    }
}

/// On a well-formed table a piece is on the table if and only if it is among
/// its pieces, and is then the piece found there.
proof fn lemma_pieces(w: World, oid: u32)
    ensures
        w.live(oid) == w.pieces().contains_key(oid),
        w.live(oid) ==> w.pieces()[oid] == w.piece(oid),
{
}

/// Each single step does to tables with the same pieces the same thing.
proof fn lemma_steps_alike(x: Stage, y: Stage, oid: u32, source: u32, delta: int, dtheta: u32, pd: PieceData)
    requires
        alike(x.world, y.world),
    ensures
        same_outcome(x.flip(oid, delta), y.flip(oid, delta)),
        same_outcome(x.rotate(oid, dtheta), y.rotate(oid, dtheta)),
        same_outcome(x.create(pd), y.create(pd)),
        same_outcome(x.delete(oid), y.delete(oid)),
        same_outcome(x.clone_piece(oid, source), y.clone_piece(oid, source)),
{
    lemma_pieces(x.world, oid);
    lemma_pieces(y.world, oid);
    lemma_pieces(x.world, source);
    lemma_pieces(y.world, source);
    lemma_pieces(x.world, pd.piece_id);
    lemma_pieces(y.world, pd.piece_id);
    if x.world.live(oid) {
        lemma_flip(x.world, oid, delta);
        lemma_flip(y.world, oid, delta);
        lemma_despawn(x.world, oid);
        lemma_despawn(y.world, oid);
    }
    if pd.piece().valid() && !x.world.live(pd.piece_id) {
        lemma_spawn(x.world, pd.piece());
        lemma_spawn(y.world, pd.piece());
    }
    if x.world.live(source) && !x.world.live(oid) {
        let copy = Piece { id: oid, ..x.world.piece(source) };
        assert(x.world.index.contains_key(source));
        assert(x.world.occupied(x.world.index[source]));
        lemma_spawn(x.world, copy);
        lemma_spawn(y.world, copy);
    }
}

/// What an action does depends on the pieces on the table and not on where
/// they are kept: on tables with the same pieces it fails in the same way,
/// or leaves tables with the same pieces.
pub proof fn lemma_committed_alike(a: Action, x: Stage, y: Stage)
    requires
        alike(x.world, y.world),
    ensures
        same_outcome(committed(a, x), committed(a, y)),
    decreases a, 0nat,
{
    match a {
        Action::Flip(oid, delta) => lemma_steps_alike(x, y, oid, 0, delta as int, 0, arbitrary()),
        Action::Rotate(oid, dtheta) => lemma_steps_alike(x, y, oid, 0, 0, dtheta, arbitrary()),
        Action::Create(pd) => lemma_steps_alike(x, y, 0, 0, 0, 0, pd),
        Action::Delete(pd) => lemma_steps_alike(x, y, pd.piece_id, 0, 0, 0, pd),
        Action::Clone(oid, source) => lemma_steps_alike(x, y, oid, source, 0, 0, arbitrary()),
        Action::Group(v) => lemma_committed_upto_alike(v@, v@.len(), x, y),
    }
}

/// The same of the first `n` actions of `s`.
pub proof fn lemma_committed_upto_alike(s: Seq<Action>, n: nat, x: Stage, y: Stage)
    requires
        alike(x.world, y.world),
    ensures
        same_outcome(committed_upto(s, n, x), committed_upto(s, n, y)),
    decreases s, n,
{
    if 0 < n <= s.len() {
        lemma_committed_upto_alike(s, (n - 1) as nat, x, y);
        match (committed_upto(s, (n - 1) as nat, x), committed_upto(s, (n - 1) as nat, y)) {
            (Ok(p), Ok(q)) => lemma_committed_alike(s[n - 1], p, q),
            _ => {},
        }
    }
}

/// How an action is undone depends on the pieces on the table and not on
/// where they are kept.
pub proof fn lemma_reverted_alike(a: Action, x: Stage, y: Stage)
    requires
        alike(x.world, y.world),
    ensures
        same_outcome(reverted(a, x), reverted(a, y)),
    decreases a, 0nat,
{
    match a {
        Action::Flip(oid, delta) => lemma_steps_alike(
            x,
            y,
            oid,
            0,
            -(delta as int),
            0,
            arbitrary(),
        ),
        Action::Rotate(oid, dtheta) => lemma_steps_alike(
            x,
            y,
            oid,
            0,
            0,
            crate::angle::opposite(dtheta),
            arbitrary(),
        ),
        Action::Create(pd) => lemma_steps_alike(x, y, pd.piece_id, 0, 0, 0, pd),
        Action::Delete(pd) => lemma_steps_alike(x, y, 0, 0, 0, 0, pd),
        Action::Clone(oid, _) => lemma_steps_alike(x, y, oid, 0, 0, 0, arbitrary()),
        Action::Group(v) => lemma_reverted_from_alike(v@, v@.len(), x, y),
    }
}

/// The same of the first `n` actions of `s`.
pub proof fn lemma_reverted_from_alike(s: Seq<Action>, n: nat, x: Stage, y: Stage)
    requires
        alike(x.world, y.world),
    ensures
        same_outcome(reverted_from(s, n, x), reverted_from(s, n, y)),
    decreases s, n,
{
    if 0 < n <= s.len() {
        lemma_reverted_alike(s[n - 1], x, y);
        match (reverted(s[n - 1], x), reverted(s[n - 1], y)) {
            (Ok(p), Ok(q)) => lemma_reverted_from_alike(s, (n - 1) as nat, p, q),
            _ => {},
        }
    }
}

/// Whatever is done to a well-formed table, and whatever is undone on it,
/// leaves it well formed.
pub proof fn lemma_keeps_wf(a: Action, st: Stage)
    requires
        st.world.wf(),
    ensures
        committed(a, st) matches Ok(end) ==> end.world.wf(),
        reverted(a, st) matches Ok(end) ==> end.world.wf(),
{
    lemma_committed_alike(a, st, st);
    lemma_reverted_alike(a, st, st);
}

/// Undoing an action that was carried out succeeds, and leaves on the table
/// the pieces that were on it before the action, as they were. This holds of
/// every action in which the deletions are truthful.
pub proof fn lemma_undone(a: Action, st: Stage)
    requires
        st.world.wf(),
        committed(a, st) is Ok,
        truthful(a, st),
    ensures
        reverted(a, committed(a, st)->Ok_0) matches Ok(end) && alike(end.world, st.world),
    decreases a, 0nat,
{
    let mid = committed(a, st)->Ok_0;
    match a {
        Action::Flip(oid, delta) => {
            crate::action::lemma_flip_undone(st, oid, delta);
        },
        Action::Rotate(oid, dtheta) => {
            crate::action::lemma_rotate_undone(st, oid, dtheta);
        },
        Action::Create(pd) => {
            crate::action::lemma_create_undone(st, pd);
        },
        Action::Delete(pd) => {
            crate::action::lemma_delete_undone(st, pd);
        },
        Action::Clone(oid, source) => {
            crate::action::lemma_clone_undone(st, oid, source);
        },
        Action::Group(v) => {
            lemma_undone_upto(v@, v@.len(), st);
        },
    }
}

/// The same of the first `n` actions of `s`: undoing them, the last first,
/// takes back what carrying them out in their order did.
pub proof fn lemma_undone_upto(s: Seq<Action>, n: nat, st: Stage)
    requires
        st.world.wf(),
        n <= s.len(),
        committed_upto(s, n, st) is Ok,
        truthful_upto(s, n, st),
    ensures
        reverted_from(s, n, committed_upto(s, n, st)->Ok_0) matches Ok(end) && alike(
            end.world,
            st.world,
        ),
    decreases s, n,
{
    if n > 0 {
        let before = committed_upto(s, (n - 1) as nat, st)->Ok_0;
        let after = committed_upto(s, n, st)->Ok_0;
        // All but the last are undone from where they left the table.
        lemma_undone_upto(s, (n - 1) as nat, st);
        lemma_committed_upto_alike(s, (n - 1) as nat, st, st);
        // The last is undone, which leaves the pieces as the others left them.
        lemma_undone(s[n - 1], before);
        let back = reverted(s[n - 1], after)->Ok_0;
        // So the others are undone from there as well.
        lemma_reverted_from_alike(s, (n - 1) as nat, back, before);
    }
}

/// Whether an action is truthful depends on the pieces on the table and not
/// on where they are kept.
pub proof fn lemma_truthful_alike(a: Action, x: Stage, y: Stage)
    requires
        alike(x.world, y.world),
    ensures
        truthful(a, x) == truthful(a, y),
    decreases a, 0nat,
{
    match a {
        Action::Delete(pd) => {
            lemma_pieces(x.world, pd.piece_id);
            lemma_pieces(y.world, pd.piece_id);
        },
        Action::Group(v) => lemma_truthful_upto_alike(v@, v@.len(), x, y),
        _ => {},
    }
}

/// The same of the first `n` actions of `s`.
pub proof fn lemma_truthful_upto_alike(s: Seq<Action>, n: nat, x: Stage, y: Stage)
    requires
        alike(x.world, y.world),
    ensures
        truthful_upto(s, n, x) == truthful_upto(s, n, y),
    decreases s, n,
{
    if 0 < n <= s.len() {
        lemma_truthful_upto_alike(s, (n - 1) as nat, x, y);
        lemma_committed_upto_alike(s, (n - 1) as nat, x, y);
        match (committed_upto(s, (n - 1) as nat, x), committed_upto(s, (n - 1) as nat, y)) {
            (Ok(p), Ok(q)) => lemma_truthful_alike(s[n - 1], p, q),
            _ => {},
        }
    }
}

/// Doing again what was undone succeeds, is as truthful as it was the first
/// time, and leaves the pieces as doing it the first time left them. So an
/// action can be undone and done again any number of times.
pub proof fn lemma_redone(a: Action, st: Stage)
    requires
        st.world.wf(),
        committed(a, st) is Ok,
        truthful(a, st),
    ensures
        same_outcome(
            committed(a, reverted(a, committed(a, st)->Ok_0)->Ok_0),
            committed(a, st),
        ),
        truthful(a, reverted(a, committed(a, st)->Ok_0)->Ok_0),
{
    lemma_undone(a, st);
    lemma_committed_alike(a, reverted(a, committed(a, st)->Ok_0)->Ok_0, st);
    lemma_truthful_alike(a, reverted(a, committed(a, st)->Ok_0)->Ok_0, st);
}

} // verus!
