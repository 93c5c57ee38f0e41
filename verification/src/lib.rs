//! A turn-based dice game on a sixteen-tile loop, as a deterministic engine.
//!
//! The engine never prompts and never prints. It asks for one index at a
//! time (a die roll, a face, an opponent), applies the answer, and reports
//! what happened as a list of events.

pub mod board;
mod chance;
pub mod die;
pub mod duel;
pub mod game;
pub mod player;
pub mod roster;
pub mod setup;
pub mod state;
