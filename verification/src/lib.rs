//! The pieces of a game on a table, what can be done to them, and how it is
//! undone.
//!
//! A piece is known by a number that stays with it ([`object`]), has faces
//! of which one is up ([`piece`]), and lies in a slot of the table
//! ([`table`]). An action ([`action`]) turns a piece to another face, turns
//! it where it lies, puts it on the table, takes it off or copies it, or
//! does several of these as one; each action can be undone. The log
//! ([`log`]) keeps what was done and what was undone, in a line. Whoever
//! shows the table is told of every change ([`event`]).
//!
//! That undoing undoes is proved in [`inverse`], and that a table and a log
//! kept together never fail each other, in [`session`].
//!
//! A piece is asked for an action by a descriptor ([`actionfunc`]), through
//! [`actions`], and the action may be bound to a key chord ([`actionkey`]).
//! The descriptors come from
//! a game box ([`gamebox`]), whose images may be parts of other images
//! ([`atlas`]). Rotations are by an angle ([`angle`]), a number in single
//! precision ([`single`]).

pub mod action;
pub mod actionfunc;
pub mod actionkey;
pub mod actions;
pub mod angle;
pub mod atlas;
pub mod event;
pub mod gamebox;
pub mod inverse;
pub mod log;
pub mod object;
pub mod piece;
pub mod session;
pub mod single;
pub mod table;
mod text;
