//! A cooperative, turn-based card game with a verified state machine and a
//! deterministic bridge between game states and fixed-layout numeric vectors.
//!
//! The library owns the rules: a legality-checked state machine over hands,
//! a draw pile, a discard pile and per-color progress counters, together with
//! an encoder that maps a state to a fixed-width observation vector and a
//! decoder that dispatches a decision vector back into the state machine.

pub mod action;
pub mod cards;
pub mod conservation;
pub mod decode;
pub mod encode;
pub mod laws;
pub mod state;

pub use action::Action;
pub use cards::{Card, Color, Value};
pub use state::{ClueKind, IllegalMoves, State};
