//! What the table tells whoever shows it.
//!
//! Each change to a piece is reported, in the order in which it was made,
//! with the handle of the piece, so that a display can follow.

use vstd::prelude::*;

use crate::action::PieceData;

verus! {

/// A piece went `delta` steps round its faces.
#[derive(Clone, Copy, Debug, PartialEq, Eq, Structural)]
pub struct FlipEvent {
    pub entity: usize,
    pub delta: i64,
}

/// A piece is to be turned by the degrees with the pattern `dtheta`.
#[derive(Clone, Copy, Debug, PartialEq, Eq, Structural)]
pub struct RotateEvent {
    pub entity: usize,
    pub dtheta: u32,
}

/// The piece that `pd` describes was put on the table, in slot `entity`.
#[derive(Clone, Copy, Debug, PartialEq, Eq, Structural)]
pub struct CreateEvent {
    pub entity: usize,
    pub pd: PieceData,
}

/// The piece in slot `entity` was taken off the table.
#[derive(Clone, Copy, Debug, PartialEq, Eq, Structural)]
pub struct DeleteEvent {
    pub entity: usize,
}

/// A copy of the piece in slot `entity` was put on the table, in slot
/// `clone`, and is known by `clone_id`.
#[derive(Clone, Copy, Debug, PartialEq, Eq, Structural)]
pub struct CloneEvent {
    pub entity: usize,
    pub clone: usize,
    pub clone_id: u32,
}

/// One change to the table.
#[derive(Clone, Copy, Debug, PartialEq, Eq, Structural)]
pub enum Event {
    Flip(FlipEvent),
    Rotate(RotateEvent),
    Create(CreateEvent),
    Delete(DeleteEvent),
    Clone(CloneEvent),
}

} // verus!
