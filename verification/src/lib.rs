//! Core of a grid-based snake game: a fixed-size cell grid, the per-tick
//! update rule (decay, movement, growth, collision, food placement), and the
//! direction-input state machine that rejects illegal reversals.

pub mod grid;
mod rng;
pub mod snake;
