//! Position representation and move generation for a chess engine.
pub mod bits;
pub mod board_representation;
pub mod move_generation;
