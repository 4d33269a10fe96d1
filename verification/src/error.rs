//! Error taxonomies of the core.
//!
//! Content errors are fatal at load time; session errors are returned to the
//! caller and leave the registry unchanged.

use vstd::prelude::*;

verus! {

/// Errors of the content loading phase. `Io` and `Parse` arise while reading
/// and decoding content files, outside this crate's verified logic; the
/// assembly step itself reports `InvalidMap` and `DanglingReference`.
#[derive(Clone, Copy, PartialEq, Eq, Structural, Debug)]
pub enum ContentError {
    Io,
    Parse,
    InvalidMap,
    DanglingReference,
}

/// Errors of an action that was rejected by the combat validation.
#[derive(Clone, Copy, PartialEq, Eq, Structural, Debug)]
pub enum ActionError {
    InvalidTarget,
    InsufficientMana,
    SkillNotUsable,
    OutOfRange,
}

/// Errors of the session operations.
#[derive(Clone, Copy, PartialEq, Eq, Structural, Debug)]
pub enum SessionError {
    NotFound,
    AlreadyStarted,
    NotStartedYet,
    UnknownMap,
    InvalidTeamSize,
    TeamFull,
    UnknownTeam,
    CellOccupied,
    InvalidClass,
    Incomplete,
    UnknownLogin,
    NotYourTurn,
    InvalidAction(ActionError),
    /// Every random id drawn collided with one in use; the caller may retry.
    IdExhausted,
}

} // verus!
