//! Execution engine for a two-dimensional token-flow language: a fixed
//! character grid encodes instructions, and numeric tokens move across it
//! each tick, their value and direction changed by the symbol they occupy.

pub mod cell;
pub mod engine;
pub mod grid;
pub mod value;
