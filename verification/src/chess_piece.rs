//! The six piece kinds.

use vstd::prelude::*;

verus! {

/// A kind of chess piece; also the second index into a board's bitboard
/// array.
#[derive(Debug, Eq, PartialEq, Structural, Clone, Copy, Hash)]
pub enum ChessPiece {
    Pawn,
    Rook,
    Knight,
    Bishop,
    Queen,
    King,
}

impl ChessPiece {
    /// Index of this piece kind in a board array.
    pub open spec fn idx(self) -> int {
        match self {
            ChessPiece::Pawn => 0,
            ChessPiece::Rook => 1,
            ChessPiece::Knight => 2,
            ChessPiece::Bishop => 3,
            ChessPiece::Queen => 4,
            ChessPiece::King => 5,
        }
    }
}

} // verus!
