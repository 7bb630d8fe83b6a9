//! Logic core of a terminal password-guessing puzzle.
//!
//! Two fixed-size character columns are seeded with hidden word and
//! bracket-pair entities; a cursor selects entities, and guesses drive a
//! win/lose state machine with a limited attempt budget and bonus effects
//! (dud removal, allowance replenishment).  Rendering and raw input live
//! outside this crate; the core only exposes read-only snapshots.

pub mod consts;
pub mod entity;
pub mod column;
pub mod game;
mod rng;
