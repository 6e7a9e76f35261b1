//! Mathematical model of piece movement: rays walked in order with
//! blocking, move rules as ordered ray lists, and the threat sets that the
//! precomputed tables and the board query must realize.

use vstd::prelude::*;
use crate::chess_color::ChessColor;
use crate::bits::bit_positions;

verus! {

/// Pawns on these squares attack diagonally in both directions without
/// wrapping across a rank edge.
pub const PAWN_MIDDLE_MASK: u64 = 9_114_861_777_597_660_798;

/// Pawns on these squares would wrap on one diagonal; only the other one
/// applies.
pub const PAWN_LEFT_MASK: u64 = 9_259_542_123_273_814_144;

/// The opposite edge file, mirror of the left mask.
pub const PAWN_RIGHT_MASK: u64 = 72_340_172_838_076_673;

/// A coordinate pair lies on the board.
pub open spec fn in_bounds(c: int, r: int) -> bool {
    0 <= c <= 7 && 0 <= r <= 7
}

/// The square index of a (column, row) pair.
pub open spec fn square_of(c: int, r: int) -> int {
    r * 8 + c
}

/// Squares one ray reaches from its step `k` onward: steps are walked in
/// order; the ray ends at the board edge, and a blocker's square is
/// included (a potential capture) but ends the ray.
pub open spec fn ray_threats(steps: Seq<(i32, i32)>, col: int, row: int, occ: u64, k: int) -> u64
    decreases steps.len() - k,
{
    if k < 0 || k >= steps.len() {
        0u64
    } else {
        let c = col + steps[k].0;
        let r = row + steps[k].1;
        if !in_bounds(c, r) {
            0u64
        } else {
            let b = 1u64 << (square_of(c, r) as u64);
            if b & occ != 0 {
                b
            } else {
                b | ray_threats(steps, col, row, occ, k + 1)
            }
        }
    }
}

/// Union of the rays of a move rule, from ray `i` onward.
pub open spec fn rule_threats_from(
    rule: Seq<Seq<(i32, i32)>>,
    col: int,
    row: int,
    occ: u64,
    i: int,
) -> u64
    decreases rule.len() - i,
{
    if i < 0 || i >= rule.len() {
        0u64
    } else {
        ray_threats(rule[i], col, row, occ, 0) | rule_threats_from(rule, col, row, occ, i + 1)
    }
}

/// Squares a piece with move rule `rule` threatens from square `pos` when
/// `occ` marks the occupied squares.
pub open spec fn piece_threats(rule: Seq<Seq<(i32, i32)>>, pos: u64, occ: u64) -> u64 {
    rule_threats_from(rule, (pos % 8) as int, (pos / 8) as int, occ, 0)
}

/// The base attack mask: squares reachable on an empty board.
pub open spec fn attack_mask(rule: Seq<Seq<(i32, i32)>>, pos: u64) -> u64 {
    piece_threats(rule, pos, 0)
}

/// Threats of one piece with the occupancy restricted to its own attack
/// mask, exactly as the threat table keys it.
pub open spec fn masked_threats(rule: Seq<Seq<(i32, i32)>>, pos: u64, occ: u64) -> u64 {
    piece_threats(rule, pos, occ & attack_mask(rule, pos))
}

/// Union of masked threats over the positions `ps[j..]`.
pub open spec fn positions_threats(
    rule: Seq<Seq<(i32, i32)>>,
    ps: Seq<u64>,
    occ: u64,
    j: int,
) -> u64
    decreases ps.len() - j,
{
    if j < 0 || j >= ps.len() {
        0u64
    } else {
        masked_threats(rule, ps[j], occ) | positions_threats(rule, ps, occ, j + 1)
    }
}

/// All squares threatened by pieces of one kind standing on `bb`.
pub open spec fn kind_threats(rule: Seq<Seq<(i32, i32)>>, bb: u64, occ: u64) -> u64 {
    positions_threats(rule, bit_positions(bb), occ, 0)
}

/// Union of queen threats over the positions `ps[j..]`: a queen combines
/// the rook rays and the bishop rays at her square.
pub open spec fn queen_positions_threats(ps: Seq<u64>, occ: u64, j: int) -> u64
    decreases ps.len() - j,
{
    if j < 0 || j >= ps.len() {
        0u64
    } else {
        (masked_threats(rook_rule(), ps[j], occ) | masked_threats(bishop_rule(), ps[j], occ))
            | queen_positions_threats(ps, occ, j + 1)
    }
}

/// All squares threatened by queens standing on `bb`.
pub open spec fn queen_threats(bb: u64, occ: u64) -> u64 {
    queen_positions_threats(bit_positions(bb), occ, 0)
}

/// Squares a color's pawns attack: middle-file pawns get both diagonal
/// shifts, each edge group only the diagonal that stays on its rank's
/// neighbour instead of wrapping to the opposite edge.
pub open spec fn pawn_threats(pawns: u64, color: ChessColor) -> u64 {
    match color {
        ChessColor::White => ((pawns & PAWN_MIDDLE_MASK) << 7) | ((pawns & PAWN_MIDDLE_MASK) << 9)
            | ((pawns & PAWN_LEFT_MASK) << 7) | ((pawns & PAWN_RIGHT_MASK) << 9),
        ChessColor::Black => ((pawns & PAWN_MIDDLE_MASK) >> 7) | ((pawns & PAWN_MIDDLE_MASK) >> 9)
            | ((pawns & PAWN_LEFT_MASK) >> 9) | ((pawns & PAWN_RIGHT_MASK) >> 7),
    }
}

/// The rook's move rule: four orthogonal rays of seven steps.
pub open spec fn rook_rule() -> Seq<Seq<(i32, i32)>> {
    seq![
        seq![(1i32, 0i32), (2i32, 0i32), (3i32, 0i32), (4i32, 0i32), (5i32, 0i32), (6i32, 0i32), (
        7i32,
        0i32,
        )],
        seq![(-1i32, 0i32), (-2i32, 0i32), (-3i32, 0i32), (-4i32, 0i32), (-5i32, 0i32), (
        -6i32,
        0i32,
        ), (-7i32, 0i32)],
        seq![(0i32, 1i32), (0i32, 2i32), (0i32, 3i32), (0i32, 4i32), (0i32, 5i32), (0i32, 6i32), (
        0i32,
        7i32,
        )],
        seq![(0i32, -1i32), (0i32, -2i32), (0i32, -3i32), (0i32, -4i32), (0i32, -5i32), (
        0i32,
        -6i32,
        ), (0i32, -7i32)],
    ]
}

/// The bishop's move rule: four diagonal rays of seven steps.
pub open spec fn bishop_rule() -> Seq<Seq<(i32, i32)>> {
    seq![
        seq![(1i32, 1i32), (2i32, 2i32), (3i32, 3i32), (4i32, 4i32), (5i32, 5i32), (6i32, 6i32), (
        7i32,
        7i32,
        )],
        seq![(-1i32, 1i32), (-2i32, 2i32), (-3i32, 3i32), (-4i32, 4i32), (-5i32, 5i32), (
        -6i32,
        6i32,
        ), (-7i32, 7i32)],
        seq![(1i32, -1i32), (2i32, -2i32), (3i32, -3i32), (4i32, -4i32), (5i32, -5i32), (
        6i32,
        -6i32,
        ), (7i32, -7i32)],
        seq![(-1i32, -1i32), (-2i32, -2i32), (-3i32, -3i32), (-4i32, -4i32), (-5i32, -5i32), (
        -6i32,
        -6i32,
        ), (-7i32, -7i32)],
    ]
}

/// The knight's move rule: eight single-step rays.
pub open spec fn knight_rule() -> Seq<Seq<(i32, i32)>> {
    seq![
        seq![(1i32, 2i32)],
        seq![(2i32, 1i32)],
        seq![(-1i32, -2i32)],
        seq![(-2i32, -1i32)],
        seq![(-1i32, 2i32)],
        seq![(-2i32, 1i32)],
        seq![(1i32, -2i32)],
        seq![(2i32, -1i32)],
    ]
}

/// The king's move rule: eight single-step rays.
pub open spec fn king_rule() -> Seq<Seq<(i32, i32)>> {
    seq![
        seq![(1i32, 1i32)],
        seq![(0i32, 1i32)],
        seq![(-1i32, 1i32)],
        seq![(-1i32, 0i32)],
        seq![(-1i32, -1i32)],
        seq![(0i32, -1i32)],
        seq![(1i32, -1i32)],
        seq![(1i32, 0i32)],
    ]
}

} // verus!
