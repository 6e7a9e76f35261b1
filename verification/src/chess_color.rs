//! The two sides of a chess game.

use vstd::prelude::*;

verus! {

/// A side of the board; also the first index into a board's bitboard array.
#[derive(Debug, Eq, PartialEq, Structural, Clone, Copy, Hash)]
pub enum ChessColor {
    White,
    Black,
}

impl ChessColor {
    /// Index of this color in a board array: white first.
    pub open spec fn idx(self) -> int {
        match self {
            ChessColor::White => 0,
            ChessColor::Black => 1,
        }
    }

    /// The side playing against this one.
    pub open spec fn spec_opposite(self) -> ChessColor {
        match self {
            ChessColor::White => ChessColor::Black,
            ChessColor::Black => ChessColor::White,
        }
    }

    pub fn get_opposite_color(&self) -> (res: Self)
        ensures
            res == self.spec_opposite(),
    {
        match self {
            ChessColor::White => ChessColor::Black,
            ChessColor::Black => ChessColor::White,
        }
    }

    /// Both colors, white first.
    pub fn get_color_vector() -> (res: Vec<ChessColor>)
        ensures
            res@ == seq![ChessColor::White, ChessColor::Black],
    {
        let mut v: Vec<ChessColor> = Vec::new();
        v.push(ChessColor::White);
        v.push(ChessColor::Black);
        proof {
            assert(v@ =~= seq![ChessColor::White, ChessColor::Black]);
        }
        v
    }
}

} // verus!
