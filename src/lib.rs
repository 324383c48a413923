//! A chess rules engine: per-square reach tables for every piece family,
//! single-move legality with ray blocking, and the rule that a move may not
//! leave the mover's own king attacked.

pub mod board;
pub mod error;
pub mod pieces;
pub mod rules;
pub mod theorems;
pub mod utils;
