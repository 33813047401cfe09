//! A piece and the faces it can show.
//!
//! The faces of a piece stand in a ring: a step forward from the last face
//! leads to the first, a step back from the first to the last.

use vstd::arithmetic::div_mod::*;
use vstd::prelude::*;

verus! {

/// Which face of a piece is up, counted from 0.
#[derive(Clone, Copy, Debug, PartialEq, Eq, Structural)]
pub struct FaceUp(pub usize);

/// A piece on the table.
#[derive(Clone, Copy, Debug, PartialEq, Eq, Structural)]
pub struct Piece {
    /// The number by which the piece is known.
    pub id: u32,
    /// How many faces the piece has.
    pub faces: usize,
    /// The face that is up.
    pub up: FaceUp,
}

impl Piece {
    /// A piece has a face, and the face that is up is one of its faces.
    pub open spec fn valid(self) -> bool {
        self.up.0 < self.faces
    }

    /// The piece after `delta` steps round its faces.
    pub open spec fn turned(self, delta: int) -> Piece {
        Piece { up: FaceUp(turned(self.up.0 as int, self.faces as int, delta) as usize), ..self }
    }
}

/// The face that is up after `delta` steps from face `up` round `faces`
/// faces: forward where `delta` is positive, back where it is negative.
pub open spec fn turned(up: int, faces: int, delta: int) -> int {
    (up + delta) % faces
}

/// Computes `turned`.
pub fn do_flip(up: FaceUp, faces: usize, delta: i64) -> (r: FaceUp)
    requires
        up.0 < faces,
    ensures
        r.0 == turned(up.0 as int, faces as int, delta as int),
        r.0 < faces,
{
    let n: u64 = faces as u64;
    let at: u64 = up.0 as u64;
    if delta >= 0 {
        // Forward: full rounds change nothing, the rest may pass the last face once.
        let d: u64 = (delta as u64) % n;
        let room: u64 = n - at;
        proof {
            lemma_fundamental_div_mod(delta as int, n as int);
            let q = (delta as int) / (n as int);
            if d >= room {
                assert(at + delta == (q + 1) * n + (d - room)) by (nonlinear_arith)
                    requires
                        delta == n * q + d,
                        room == n - at,
                ;
                lemma_fundamental_div_mod_converse_mod(
                    at + delta,
                    n as int,
                    q + 1,
                    (d - room) as int,
                );
            } else {
                assert(at + delta == q * n + (at + d)) by (nonlinear_arith)
                    requires
                        delta == n * q + d,
                ;
                lemma_fundamental_div_mod_converse_mod(at + delta, n as int, q, (at + d) as int);
            }
        }
        if d >= room {
            FaceUp((d - room) as usize)
        } else {
            FaceUp((at + d) as usize)
        }
    } else {
        // Back: the same with the steps counted the other way.
        let back: u64 = (-(delta + 1)) as u64 + 1;
        let d: u64 = back % n;
        proof {
            lemma_fundamental_div_mod(back as int, n as int);
            let q = (back as int) / (n as int);
            if at >= d {
                assert(at + delta == (-q) * n + (at - d)) by (nonlinear_arith)
                    requires
                        -delta == n * q + d,
                ;
                lemma_fundamental_div_mod_converse_mod(at + delta, n as int, -q, (at - d) as int);
            } else {
                assert(at + delta == (-q - 1) * n + (n - (d - at))) by (nonlinear_arith)
                    requires
                        -delta == n * q + d,
                ;
                lemma_fundamental_div_mod_converse_mod(
                    at + delta,
                    n as int,
                    -q - 1,
                    (n - (d - at)) as int,
                );
            }
        }
        if at >= d {
            FaceUp((at - d) as usize)
        } else {
            FaceUp((n - (d - at)) as usize)
        }
    }
}

/// A step lands on a face of the piece.
pub proof fn lemma_turned_in_range(up: int, faces: int, delta: int)
    requires
        0 < faces,
    ensures
        0 <= turned(up, faces, delta) < faces,
{
    lemma_mod_bound(up + delta, faces);
}

/// Steps taken and then taken back lead to the face that was up before.
pub proof fn lemma_turned_back(up: int, faces: int, delta: int)
    requires
        0 <= up < faces,
    ensures
        turned(turned(up, faces, delta), faces, -delta) == up,
{
    lemma_add_mod_noop(up + delta, -delta, faces);
    lemma_mod_bound(up + delta, faces);
    lemma_small_mod(up as nat, faces as nat);
    let mid = (up + delta) % faces;
    lemma_small_mod(mid as nat, faces as nat);
    lemma_add_mod_noop_right(mid, -delta, faces);
    lemma_add_mod_noop_right(up + delta, -delta, faces);
    lemma_add_mod_noop(mid, -delta, faces);
}

/// Steps add up: `a` steps and then `b` steps are `a + b` steps.
pub proof fn lemma_turned_twice(up: int, faces: int, a: int, b: int)
    requires
        0 < faces,
    ensures
        turned(turned(up, faces, a), faces, b) == turned(up, faces, a + b),
{
    lemma_add_mod_noop(up + a, b, faces);
    lemma_mod_bound(up + a, faces);
    let mid = (up + a) % faces;
    lemma_small_mod(mid as nat, faces as nat);
    lemma_add_mod_noop(mid, b, faces);
}

} // verus!
