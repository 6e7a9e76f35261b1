//! The board state: one occupancy bitboard per color and piece kind, and
//! the query for every square a color threatens.

use vstd::prelude::*;
use std::collections::HashMap;
use crate::chess_color::ChessColor;
use crate::chess_piece::ChessPiece;
use crate::constants::Constants;
use crate::bits::{
    pop_count,
    is_submask,
    bit_positions,
    count_set_bits,
    lemma_bit_ops_basic,
    lemma_pop_count_zero,
    lemma_pop_count_or_disjoint,
    lemma_bit_positions_upto_props,
    lemma_bit_positions_upto_zero,
};
use crate::model::{
    attack_mask,
    masked_threats,
    positions_threats,
    kind_threats,
    queen_positions_threats,
    queen_threats,
    pawn_threats,
    rook_rule,
    bishop_rule,
    knight_rule,
    king_rule,
};

verus! {

broadcast use vstd::std_specs::hash::group_hash_axioms;

/// A board: `board[color][piece]` is the occupancy bitboard of that
/// color's pieces of that kind.
pub struct BitBoard {
    pub board: [[u64; 6]; 2],
}

impl BitBoard {
    /// The bitboard of one color's pieces of one kind.
    pub open spec fn piece_board(self, color: ChessColor, piece: ChessPiece) -> u64 {
        self.board[color.idx()][piece.idx()]
    }

    /// OR of the first `n` of the twelve bitboards, white's six first.
    pub open spec fn occupied_prefix(self, n: int) -> u64
        decreases n,
    {
        if n <= 0 {
            0u64
        } else {
            self.occupied_prefix(n - 1) | self.board[(n - 1) / 6][(n - 1) % 6]
        }
    }

    /// All occupied squares: the union of the twelve bitboards.
    pub open spec fn spec_occupied(self) -> u64 {
        self.occupied_prefix(12)
    }

    /// Sum of the popcounts of the first `n` of the twelve bitboards.
    pub open spec fn pop_count_prefix(self, n: int) -> nat
        decreases n,
    {
        if n <= 0 {
            0
        } else {
            self.pop_count_prefix(n - 1) + pop_count(self.board[(n - 1) / 6][(n - 1) % 6])
        }
    }

    /// A valid board: no square holds two pieces, so the twelve bitboards
    /// are pairwise disjoint.
    pub open spec fn wf(self) -> bool {
        forall|c1: int, p1: int, c2: int, p2: int|
            0 <= c1 < 2 && 0 <= p1 < 6 && 0 <= c2 < 2 && 0 <= p2 < 6 && (c1 != c2 || p1 != p2)
                ==> #[trigger] (self.board[c1][p1] & self.board[c2][p2]) == 0
    }

    /// All squares the given color threatens: its pawn attacks joined with
    /// the table-driven threats of each other piece kind.
    pub open spec fn spec_threatened(self, color: ChessColor) -> u64 {
        let occ = self.spec_occupied();
        pawn_threats(self.piece_board(color, ChessPiece::Pawn), color) | kind_threats(
            rook_rule(),
            self.piece_board(color, ChessPiece::Rook),
            occ,
        ) | kind_threats(bishop_rule(), self.piece_board(color, ChessPiece::Bishop), occ)
            | kind_threats(knight_rule(), self.piece_board(color, ChessPiece::Knight), occ)
            | queen_threats(self.piece_board(color, ChessPiece::Queen), occ) | kind_threats(
            king_rule(),
            self.piece_board(color, ChessPiece::King),
            occ,
        )
    }

    /// The standard initial position.
    pub fn new() -> (res: Self)
        ensures
            res.board[0][0] == 0xff00u64,
            res.board[0][1] == 0x81u64,
            res.board[0][2] == 0x42u64,
            res.board[0][3] == 0x24u64,
            res.board[0][4] == 0x10u64,
            res.board[0][5] == 0x08u64,
            res.board[1][0] == 0x00ff_0000_0000_0000u64,
            res.board[1][1] == 0x8100_0000_0000_0000u64,
            res.board[1][2] == 0x4200_0000_0000_0000u64,
            res.board[1][3] == 0x2400_0000_0000_0000u64,
            res.board[1][4] == 0x1000_0000_0000_0000u64,
            res.board[1][5] == 0x0800_0000_0000_0000u64,
            res.wf(),
    {
        let white: [u64; 6] = [0xff00, 0x81, 0x42, 0x24, 0x10, 0x08];
        let black: [u64; 6] = [
            0x00ff_0000_0000_0000,
            0x8100_0000_0000_0000,
            0x4200_0000_0000_0000,
            0x2400_0000_0000_0000,
            0x1000_0000_0000_0000,
            0x0800_0000_0000_0000,
        ];
        let res = BitBoard { board: [white, black] };
        proof {
            assert(0xff00u64 & 0x81u64 == 0
                    && 0xff00u64 & 0x42u64 == 0
                    && 0xff00u64 & 0x24u64 == 0
                    && 0xff00u64 & 0x10u64 == 0
                    && 0xff00u64 & 0x08u64 == 0
                    && 0xff00u64 & 0x00ff_0000_0000_0000u64 == 0
                    && 0xff00u64 & 0x8100_0000_0000_0000u64 == 0
                    && 0xff00u64 & 0x4200_0000_0000_0000u64 == 0
                    && 0xff00u64 & 0x2400_0000_0000_0000u64 == 0
                    && 0xff00u64 & 0x1000_0000_0000_0000u64 == 0
                    && 0xff00u64 & 0x0800_0000_0000_0000u64 == 0
                    && 0x81u64 & 0x42u64 == 0
                    && 0x81u64 & 0x24u64 == 0
                    && 0x81u64 & 0x10u64 == 0
                    && 0x81u64 & 0x08u64 == 0
                    && 0x81u64 & 0x00ff_0000_0000_0000u64 == 0
                    && 0x81u64 & 0x8100_0000_0000_0000u64 == 0
                    && 0x81u64 & 0x4200_0000_0000_0000u64 == 0
                    && 0x81u64 & 0x2400_0000_0000_0000u64 == 0
                    && 0x81u64 & 0x1000_0000_0000_0000u64 == 0
                    && 0x81u64 & 0x0800_0000_0000_0000u64 == 0
                    && 0x42u64 & 0x24u64 == 0
                    && 0x42u64 & 0x10u64 == 0
                    && 0x42u64 & 0x08u64 == 0
                    && 0x42u64 & 0x00ff_0000_0000_0000u64 == 0
                    && 0x42u64 & 0x8100_0000_0000_0000u64 == 0
                    && 0x42u64 & 0x4200_0000_0000_0000u64 == 0
                    && 0x42u64 & 0x2400_0000_0000_0000u64 == 0
                    && 0x42u64 & 0x1000_0000_0000_0000u64 == 0
                    && 0x42u64 & 0x0800_0000_0000_0000u64 == 0
                    && 0x24u64 & 0x10u64 == 0
                    && 0x24u64 & 0x08u64 == 0
                    && 0x24u64 & 0x00ff_0000_0000_0000u64 == 0
                    && 0x24u64 & 0x8100_0000_0000_0000u64 == 0
                    && 0x24u64 & 0x4200_0000_0000_0000u64 == 0
                    && 0x24u64 & 0x2400_0000_0000_0000u64 == 0
                    && 0x24u64 & 0x1000_0000_0000_0000u64 == 0
                    && 0x24u64 & 0x0800_0000_0000_0000u64 == 0
                    && 0x10u64 & 0x08u64 == 0
                    && 0x10u64 & 0x00ff_0000_0000_0000u64 == 0
                    && 0x10u64 & 0x8100_0000_0000_0000u64 == 0
                    && 0x10u64 & 0x4200_0000_0000_0000u64 == 0
                    && 0x10u64 & 0x2400_0000_0000_0000u64 == 0
                    && 0x10u64 & 0x1000_0000_0000_0000u64 == 0
                    && 0x10u64 & 0x0800_0000_0000_0000u64 == 0
                    && 0x08u64 & 0x00ff_0000_0000_0000u64 == 0
                    && 0x08u64 & 0x8100_0000_0000_0000u64 == 0
                    && 0x08u64 & 0x4200_0000_0000_0000u64 == 0
                    && 0x08u64 & 0x2400_0000_0000_0000u64 == 0
                    && 0x08u64 & 0x1000_0000_0000_0000u64 == 0
                    && 0x08u64 & 0x0800_0000_0000_0000u64 == 0
                    && 0x00ff_0000_0000_0000u64 & 0x8100_0000_0000_0000u64 == 0
                    && 0x00ff_0000_0000_0000u64 & 0x4200_0000_0000_0000u64 == 0
                    && 0x00ff_0000_0000_0000u64 & 0x2400_0000_0000_0000u64 == 0
                    && 0x00ff_0000_0000_0000u64 & 0x1000_0000_0000_0000u64 == 0
                    && 0x00ff_0000_0000_0000u64 & 0x0800_0000_0000_0000u64 == 0
                    && 0x8100_0000_0000_0000u64 & 0x4200_0000_0000_0000u64 == 0
                    && 0x8100_0000_0000_0000u64 & 0x2400_0000_0000_0000u64 == 0
                    && 0x8100_0000_0000_0000u64 & 0x1000_0000_0000_0000u64 == 0
                    && 0x8100_0000_0000_0000u64 & 0x0800_0000_0000_0000u64 == 0
                    && 0x4200_0000_0000_0000u64 & 0x2400_0000_0000_0000u64 == 0
                    && 0x4200_0000_0000_0000u64 & 0x1000_0000_0000_0000u64 == 0
                    && 0x4200_0000_0000_0000u64 & 0x0800_0000_0000_0000u64 == 0
                    && 0x2400_0000_0000_0000u64 & 0x1000_0000_0000_0000u64 == 0
                    && 0x2400_0000_0000_0000u64 & 0x0800_0000_0000_0000u64 == 0
                    && 0x1000_0000_0000_0000u64 & 0x0800_0000_0000_0000u64 == 0) by (bit_vector);
            assert forall|c1: int, p1: int, c2: int, p2: int|
                0 <= c1 < 2 && 0 <= p1 < 6 && 0 <= c2 < 2 && 0 <= p2 < 6 && (c1 != c2 || p1 != p2)
                    implies #[trigger] (res.board[c1][p1] & res.board[c2][p2]) == 0 by {
                lemma_bit_ops_basic(res.board[c1][p1], res.board[c2][p2], 0);
            }
        }
        res
    }

    /// OR of all twelve bitboards.
    pub fn get_occupied_spaces(&self) -> (res: u64)
        ensures
            res == self.spec_occupied(),
    {
        let mut res: u64 = 0;
        let mut i: usize = 0;
        while i < 2
            invariant
                i <= 2,
                res == self.occupied_prefix(6 * i),
            decreases 2 - i,
        {
            let mut j: usize = 0;
            while j < 6
                invariant
                    j <= 6,
                    i < 2,
                    res == self.occupied_prefix(6 * i + j),
                decreases 6 - j,
            {
                res |= self.board[i][j];
                proof {
                    assert((6 * i + j) / 6 == i && (6 * i + j) % 6 == j);
                }
                j += 1;
            }
            i += 1;
        }
        res
    }

    /// Every square the given color's pieces attack, including squares
    /// held by its own pieces: pawn shifts plus, for each other piece on
    /// the board, a threat-table lookup keyed by the occupancy restricted
    /// to that piece's attack mask.
    pub fn get_threatened_spaces(&self, chess_color: ChessColor, constants: &Constants) -> (res:
        u64)
        requires
            constants.wf(),
        ensures
            res == self.spec_threatened(chess_color),
    {
        let ci: usize = match chess_color {
            ChessColor::White => 0,
            ChessColor::Black => 1,
        };
        let mut res: u64 = 0;

        let pawns = self.board[ci][0];
        let middle_pawns = pawns & constants.pawn_middle_mask;
        let left_pawns = pawns & constants.pawn_left_mask;
        let right_pawns = pawns & constants.pawn_right_mask;
        match chess_color {
            ChessColor::White => {
                res |= middle_pawns << 7;
                res |= middle_pawns << 9;
                res |= left_pawns << 7;
                res |= right_pawns << 9;
                proof {
                    lemma_bit_ops_basic(middle_pawns << 7, 0, 0);
                }
            },
            ChessColor::Black => {
                res |= middle_pawns >> 7;
                res |= middle_pawns >> 9;
                res |= left_pawns >> 9;
                res |= right_pawns >> 7;
                proof {
                    lemma_bit_ops_basic(middle_pawns >> 7, 0, 0);
                }
            },
        }
        proof {
            assert(res == pawn_threats(
                self.piece_board(chess_color, ChessPiece::Pawn),
                chess_color,
            ));
        }

        let occupied_spaces = self.get_occupied_spaces();

        // Rooks
        res = kind_threat_sum(
            res,
            self.board[ci][1],
            occupied_spaces,
            &constants.rook_threat_hashmap,
            constants,
            Ghost(rook_rule()),
        );

        // Bishops
        res = kind_threat_sum(
            res,
            self.board[ci][3],
            occupied_spaces,
            &constants.bishop_threat_hashmap,
            constants,
            Ghost(bishop_rule()),
        );

        // Knights
        res = kind_threat_sum(
            res,
            self.board[ci][2],
            occupied_spaces,
            &constants.knight_threat_hashmap,
            constants,
            Ghost(knight_rule()),
        );

        // Queens
        res = queen_threat_sum(res, self.board[ci][4], occupied_spaces, constants);

        // Kings
        res = kind_threat_sum(
            res,
            self.board[ci][5],
            occupied_spaces,
            &constants.king_threat_hashmap,
            constants,
            Ghost(king_rule()),
        );

        res
    }

    /// Disjointness: on a valid board the twelve popcounts add up to the
    /// popcount of the union, so no square is counted twice.
    pub proof fn lemma_disjoint_popcounts(self)
        requires
            self.wf(),
        ensures
            self.pop_count_prefix(12) == pop_count(self.spec_occupied()),
    {
        self.lemma_disjoint_popcounts_aux(12);
    }

    proof fn lemma_disjoint_popcounts_aux(self, n: int)
        requires
            self.wf(),
            0 <= n <= 12,
        ensures
            self.pop_count_prefix(n) == pop_count(self.occupied_prefix(n)),
        decreases n,
    {
        if n > 0 {
            self.lemma_disjoint_popcounts_aux(n - 1);
            self.lemma_prefix_disjoint(n - 1, (n - 1) / 6, (n - 1) % 6);
            lemma_pop_count_or_disjoint(
                self.occupied_prefix(n - 1),
                self.board[(n - 1) / 6][(n - 1) % 6],
            );
        }
    }

    /// The union of the first `n` bitboards shares no square with any
    /// later bitboard.
    proof fn lemma_prefix_disjoint(self, n: int, c: int, p: int)
        requires
            self.wf(),
            0 <= n <= 12,
            0 <= c < 2,
            0 <= p < 6,
            c * 6 + p >= n,
        ensures
            self.occupied_prefix(n) & self.board[c][p] == 0,
        decreases n,
    {
        if n == 0 {
            lemma_bit_ops_basic(self.board[c][p], 0, 0);
        } else {
            self.lemma_prefix_disjoint(n - 1, c, p);
            let c2 = (n - 1) / 6;
            let p2 = (n - 1) % 6;
            assert(self.board[c2][p2] & self.board[c][p] == 0);
            lemma_bit_ops_basic(self.occupied_prefix(n - 1), self.board[c2][p2], self.board[c][p]);
            lemma_bit_ops_basic(0, 0, 0);
        }
    }
}

/// Copy of a cached position list, as the query hands it out.
fn clone_positions(src: &Vec<u64>) -> (res: Vec<u64>)
    ensures
        res@ == src@,
{
    let mut res: Vec<u64> = Vec::new();
    let mut i: usize = 0;
    while i < src.len()
        invariant
            i <= src.len(),
            res@ == src@.subrange(0, i as int),
        decreases src.len() - i,
    {
        res.push(src[i]);
        proof {
            assert(res@ =~= src@.subrange(0, i as int + 1));
        }
        i += 1;
    }
    proof {
        assert(src@.subrange(0, src@.len() as int) =~= src@);
    }
    res
}

/// The set-bit positions of `bb`, from the cache when the count is small
/// and by direct scanning otherwise.
fn get_positions(constants: &Constants, bb: u64) -> (res: Vec<u64>)
    requires
        constants.wf(),
        pop_count(bb) >= 1,
    ensures
        res@ == bit_positions(bb),
{
    let count = count_set_bits(bb);
    if count as u64 > constants.num_to_bit_position_max_val {
        Constants::find_bit_positions_from_num(bb)
    } else {
        match constants.num_to_bit_position_hashmap.get(&bb) {
            Some(cached) => clone_positions(cached),
            None => {
                proof {
                    assert(false);
                }
                Vec::new()
            },
        }
    }
}

/// Extends `res_in` with the threats of every piece of one kind: for each
/// set bit of `bb`, look up the attack mask, restrict the occupancy to it,
/// and look up the threatened squares.
fn kind_threat_sum(
    res_in: u64,
    bb: u64,
    occupied: u64,
    table: &Vec<HashMap<u64, u64>>,
    constants: &Constants,
    Ghost(rule): Ghost<Seq<Seq<(i32, i32)>>>,
) -> (res: u64)
    requires
        constants.wf(),
        Constants::threat_table_wf(table@, rule),
    ensures
        res == res_in | kind_threats(rule, bb, occupied),
{
    let mut res = res_in;
    if count_set_bits(bb) != 0 {
        let positions = get_positions(constants, bb);
        let ghost ps = bit_positions(bb);
        proof {
            lemma_bit_positions_upto_props(bb, 64);
        }
        let mut idx: usize = 0;
        while idx < positions.len()
            invariant
                idx <= positions.len(),
                positions@ == ps,
                ps == bit_positions(bb),
                forall|n: int| 0 <= n < ps.len() ==> #[trigger] ps[n] < 64,
                Constants::threat_table_wf(table@, rule),
                res | positions_threats(rule, ps, occupied, idx as int) == res_in
                    | positions_threats(rule, ps, occupied, 0),
            decreases positions.len() - idx,
        {
            let bit_position = positions[idx];
            let p = bit_position as usize;
            let square_table: &HashMap<u64, u64> = &table[p];
            proof {
                lemma_bit_ops_basic(attack_mask(rule, bit_position), 0, 0);
                assert(is_submask(0, attack_mask(rule, bit_position)));
            }
            let mask: u64 = match square_table.get(&0u64) {
                Some(m) => *m,
                None => {
                    proof {
                        assert(false);
                    }
                    0
                },
            };
            proof {
                assert(mask == attack_mask(rule, bit_position));
                lemma_bit_ops_basic(occupied, mask, 0);
                assert(is_submask(occupied & mask, attack_mask(rule, bit_position)));
            }
            let key: u64 = occupied & mask;
            let threat: u64 = match square_table.get(&key) {
                Some(t) => *t,
                None => {
                    proof {
                        assert(false);
                    }
                    0
                },
            };
            let ghost res_before = res;
            res |= threat;
            proof {
                assert(threat == masked_threats(rule, bit_position, occupied));
                assert(positions_threats(rule, ps, occupied, idx as int) == masked_threats(
                    rule,
                    ps[idx as int],
                    occupied,
                ) | positions_threats(rule, ps, occupied, idx as int + 1));
                lemma_bit_ops_basic(
                    res_before,
                    threat,
                    positions_threats(rule, ps, occupied, idx as int + 1),
                );
            }
            idx += 1;
        }
        proof {
            lemma_bit_ops_basic(res, 0, 0);
        }
    } else {
        proof {
            lemma_pop_count_zero(bb);
            lemma_bit_positions_upto_zero(64);
            assert(positions_threats(rule, bit_positions(bb), occupied, 0) == 0);
            lemma_bit_ops_basic(res_in, 0, 0);
        }
    }
    res
}

/// Extends `res_in` with the threats of every queen on `bb`: each queen
/// combines a rook-table lookup and a bishop-table lookup at her square.
fn queen_threat_sum(res_in: u64, bb: u64, occupied: u64, constants: &Constants) -> (res: u64)
    requires
        constants.wf(),
    ensures
        res == res_in | queen_threats(bb, occupied),
{
    let mut res = res_in;
    if count_set_bits(bb) != 0 {
        let positions = get_positions(constants, bb);
        let ghost ps = bit_positions(bb);
        proof {
            lemma_bit_positions_upto_props(bb, 64);
        }
        let mut idx: usize = 0;
        while idx < positions.len()
            invariant
                idx <= positions.len(),
                positions@ == ps,
                ps == bit_positions(bb),
                forall|n: int| 0 <= n < ps.len() ==> #[trigger] ps[n] < 64,
                constants.wf(),
                res | queen_positions_threats(ps, occupied, idx as int) == res_in
                    | queen_positions_threats(ps, occupied, 0),
            decreases positions.len() - idx,
        {
            let bit_position = positions[idx];
            let p = bit_position as usize;
            let rook_table: &HashMap<u64, u64> = &constants.rook_threat_hashmap[p];
            let bishop_table: &HashMap<u64, u64> = &constants.bishop_threat_hashmap[p];
            proof {
                lemma_bit_ops_basic(attack_mask(rook_rule(), bit_position), 0, 0);
                lemma_bit_ops_basic(attack_mask(bishop_rule(), bit_position), 0, 0);
            }
            let rook_mask: u64 = match rook_table.get(&0u64) {
                Some(m) => *m,
                None => {
                    proof {
                        assert(false);
                    }
                    0
                },
            };
            let bishop_mask: u64 = match bishop_table.get(&0u64) {
                Some(m) => *m,
                None => {
                    proof {
                        assert(false);
                    }
                    0
                },
            };
            proof {
                lemma_bit_ops_basic(occupied, rook_mask, 0);
                lemma_bit_ops_basic(occupied, bishop_mask, 0);
            }
            let rook_key: u64 = occupied & rook_mask;
            let bishop_key: u64 = occupied & bishop_mask;
            let rook_threat: u64 = match rook_table.get(&rook_key) {
                Some(t) => *t,
                None => {
                    proof {
                        assert(false);
                    }
                    0
                },
            };
            let bishop_threat: u64 = match bishop_table.get(&bishop_key) {
                Some(t) => *t,
                None => {
                    proof {
                        assert(false);
                    }
                    0
                },
            };
            let ghost res_entry = res;
            let ghost both = masked_threats(rook_rule(), bit_position, occupied) | masked_threats(
                bishop_rule(),
                bit_position,
                occupied,
            );
            res |= rook_threat;
            res |= bishop_threat;
            proof {
                assert(rook_threat == masked_threats(rook_rule(), bit_position, occupied));
                assert(bishop_threat == masked_threats(bishop_rule(), bit_position, occupied));
                lemma_bit_ops_basic(res_entry, rook_threat, bishop_threat);
                assert(res == res_entry | both);
                assert(queen_positions_threats(ps, occupied, idx as int) == both
                    | queen_positions_threats(ps, occupied, idx as int + 1));
                lemma_bit_ops_basic(
                    res_entry,
                    both,
                    queen_positions_threats(ps, occupied, idx as int + 1),
                );
            }
            idx += 1;
        }
        proof {
            lemma_bit_ops_basic(res, 0, 0);
        }
    } else {
        proof {
            lemma_pop_count_zero(bb);
            lemma_bit_positions_upto_zero(64);
            assert(queen_positions_threats(bit_positions(bb), occupied, 0) == 0);
            lemma_bit_ops_basic(res_in, 0, 0);
        }
    }
    res
}

} // verus!
