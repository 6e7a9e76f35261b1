//! Bitboard-based chess threat computation.
//!
//! The crate precomputes, for every piece kind and square, the set of squares
//! that piece attacks under every possible blocker configuration, and answers
//! "which squares does a color threaten" queries over a bitboard board state.

pub mod bitboard;
pub mod bits;
pub mod chess_color;
pub mod chess_piece;
pub mod constants;
pub mod model;
pub mod rpc;

pub use bits::pop_count;
