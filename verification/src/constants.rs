//! Precomputed attack and threat tables, built once at startup from the
//! fixed move rules, together with the ray walker and the enumerators that
//! fill them.

use vstd::prelude::*;
use std::collections::HashMap;
use crate::bits::{
    pop_count,
    bit_set,
    is_submask,
    two_to_the,
    bit_positions,
    high_bits_clear,
    lemma_bit_ops_basic,
    lemma_clear_bit,
    lemma_set_bit,
    lemma_submask_split,
    lemma_pop_count_zero,
    lemma_pop_count_clear_bit,
    lemma_pop_count_or_disjoint,
    lemma_pop_count_single,
    lemma_pop_count_le_64,
    lemma_pop_count_high_clear,
    lemma_two_to_the_pos,
    lemma_bit_positions_lowest,
    lemma_bit_positions_upto_zero,
};
use crate::model::{
    square_of,
    ray_threats,
    rule_threats_from,
    piece_threats,
    attack_mask,
    rook_rule,
    bishop_rule,
    knight_rule,
    king_rule,
    PAWN_MIDDLE_MASK,
    PAWN_LEFT_MASK,
    PAWN_RIGHT_MASK,
};

verus! {

broadcast use vstd::std_specs::hash::group_hash_axioms;

/// How many set bits the position cache covers.
pub const NUM_TO_BIT_POSITION_MAX_VAL: u64 = 3;

/// The immutable shared tables: per piece kind, the base attack mask of
/// every square and the threatened squares for every blocker subset, plus
/// the pawn file masks and the small-popcount bit-position cache.
pub struct Constants {
    pub rook_attack_mask_hashmap: HashMap<u64, u64>,
    pub rook_threat_hashmap: Vec<HashMap<u64, u64>>,
    pub bishop_attack_mask_hashmap: HashMap<u64, u64>,
    pub bishop_threat_hashmap: Vec<HashMap<u64, u64>>,
    pub knight_attack_mask_hashmap: HashMap<u64, u64>,
    pub knight_threat_hashmap: Vec<HashMap<u64, u64>>,
    pub king_attack_mask_hashmap: HashMap<u64, u64>,
    pub king_threat_hashmap: Vec<HashMap<u64, u64>>,
    pub pawn_middle_mask: u64,
    pub pawn_left_mask: u64,
    pub pawn_right_mask: u64,
    pub num_to_bit_position_hashmap: HashMap<u64, Vec<u64>>,
    pub num_to_bit_position_max_val: u64,
}

impl Constants {
    /// Column and row of a square; squares run from the lower right (0) to
    /// the upper left (63).
    pub fn get_coordinates_from_bit_position(bit_position: u64) -> (coords: (u64, u64))
        ensures
            coords.0 == bit_position % 8,
            coords.1 == bit_position / 8,
    {
        (bit_position % 8, bit_position / 8)
    }

    /// The square holding the given column and row.
    pub fn get_bit_position_from_coordinates(col: u64, row: u64) -> (res: u64)
        requires
            col < 8,
            row < 8,
        ensures
            res == square_of(col as int, row as int),
            res < 64,
    {
        row * 8 + col
    }

    /// Squares threatened by a piece with the given move rule standing on
    /// `piece_position`, where `other_pieces` marks occupied squares: each
    /// ray is walked in order, stops at the board edge, and includes the
    /// first occupied square it meets before stopping.
    pub fn threat_generator(
        piece_moves: &Vec<Vec<(i32, i32)>>,
        piece_position: u64,
        other_pieces: u64,
    ) -> (res: u64)
        requires
            piece_position < 64,
        ensures
            res == piece_threats(piece_moves.deep_view(), piece_position, other_pieces),
    {
        let ghost rule = piece_moves.deep_view();
        let (col_u, row_u) = Self::get_coordinates_from_bit_position(piece_position);
        let col: i64 = col_u as i64;
        let row: i64 = row_u as i64;
        let ghost gcol = (piece_position % 8) as int;
        let ghost grow = (piece_position / 8) as int;

        let mut res: u64 = 0;
        proof {
            lemma_bit_ops_basic(rule_threats_from(rule, gcol, grow, other_pieces, 0), 0, 0);
        }
        let mut i: usize = 0;
        while i < piece_moves.len()
            invariant
                i <= piece_moves.len(),
                rule == piece_moves.deep_view(),
                col == gcol,
                row == grow,
                0 <= gcol <= 7,
                0 <= grow <= 7,
                res | rule_threats_from(rule, gcol, grow, other_pieces, i as int)
                    == rule_threats_from(rule, gcol, grow, other_pieces, 0),
            decreases piece_moves.len() - i,
        {
            let move_set: &Vec<(i32, i32)> = &piece_moves[i];
            let ghost steps = rule[i as int];
            proof {
                assert(steps == move_set.deep_view());
            }
            let ghost res_entry = res;
            let mut k: usize = 0;
            while k < move_set.len()
                invariant
                    k <= move_set.len(),
                    steps == move_set.deep_view(),
                    col == gcol,
                    row == grow,
                    0 <= gcol <= 7,
                    0 <= grow <= 7,
                    res | ray_threats(steps, gcol, grow, other_pieces, k as int) == res_entry
                        | ray_threats(steps, gcol, grow, other_pieces, 0),
                decreases move_set.len() - k,
            {
                let step: (i32, i32) = move_set[k];
                proof {
                    assert(steps[k as int] == step);
                }
                let col_sum: i64 = col + step.0 as i64;
                let row_sum: i64 = row + step.1 as i64;
                if col_sum < 0 || col_sum > 7 {
                    proof {
                        assert(ray_threats(steps, gcol, grow, other_pieces, k as int) == 0);
                        lemma_bit_ops_basic(res, 0, 0);
                    }
                    k = move_set.len();
                } else if row_sum < 0 || row_sum > 7 {
                    proof {
                        assert(ray_threats(steps, gcol, grow, other_pieces, k as int) == 0);
                        lemma_bit_ops_basic(res, 0, 0);
                    }
                    k = move_set.len();
                } else {
                    let sq = Self::get_bit_position_from_coordinates(
                        col_sum as u64,
                        row_sum as u64,
                    );
                    let position: u64 = 1 << sq;
                    let ghost res_before = res;
                    res |= position;
                    if position & other_pieces > 0 {
                        proof {
                            assert(ray_threats(steps, gcol, grow, other_pieces, k as int)
                                == position);
                            lemma_bit_ops_basic(res, 0, 0);
                        }
                        k = move_set.len();
                    } else {
                        proof {
                            assert(ray_threats(steps, gcol, grow, other_pieces, k as int)
                                == position | ray_threats(
                                steps,
                                gcol,
                                grow,
                                other_pieces,
                                k as int + 1,
                            ));
                            lemma_bit_ops_basic(
                                res_before,
                                position,
                                ray_threats(steps, gcol, grow, other_pieces, k as int + 1),
                            );
                        }
                        k = k + 1;
                    }
                }
            }
            proof {
                lemma_bit_ops_basic(res, 0, 0);
                assert(res == res_entry | ray_threats(steps, gcol, grow, other_pieces, 0));
                lemma_bit_ops_basic(
                    res_entry,
                    ray_threats(steps, gcol, grow, other_pieces, 0),
                    rule_threats_from(rule, gcol, grow, other_pieces, i as int + 1),
                );
            }
            i = i + 1;
        }
        proof {
            lemma_bit_ops_basic(res, 0, 0);
        }
        res
    }

    /// Every submask of `number`: exactly `2^pop_count(number)` distinct
    /// bitboards whose set bits all lie in `number`, starting with `0` and
    /// ending with `number` itself.
    pub fn get_all_possible_combinations_of_bits(number: u64) -> (res: Vec<u64>)
        ensures
            res@.no_duplicates(),
            res@.len() == two_to_the(pop_count(number)),
            forall|s: u64| #[trigger] res@.contains(s) <==> is_submask(s, number),
            res@[0] == 0,
            res@[res@.len() - 1] == number,
    {
        let mut res: Vec<u64> = Vec::new();
        Self::get_all_possible_combinations_of_bits_helper(number, &mut res);
        res
    }

    /// Fills an empty vector with every submask of `number`: peel the
    /// highest set bit, enumerate the submasks of the rest, then repeat
    /// that list with the peeled bit put back in.
    fn get_all_possible_combinations_of_bits_helper(number: u64, vec: &mut Vec<u64>)
        requires
            old(vec)@.len() == 0,
        ensures
            final(vec)@.no_duplicates(),
            final(vec)@.len() == two_to_the(pop_count(number)),
            forall|s: u64| #[trigger] final(vec)@.contains(s) <==> is_submask(s, number),
            final(vec)@[0] == 0,
            final(vec)@[final(vec)@.len() - 1] == number,
        decreases number,
    {
        if number == 0 {
            vec.push(0);
            proof {
                assert(vec@ =~= seq![0u64]);
                assert forall|s: u64| vec@.contains(s) <==> is_submask(s, 0u64) by {
                    lemma_bit_ops_basic(s, 0, 0);
                    if vec@.contains(s) {
                        assert(s == vec@[0]);
                    }
                    if is_submask(s, 0u64) {
                        assert(vec@[0] == s);
                    }
                }
            }
            return ;
        }
        proof {
            vstd::std_specs::bits::axiom_u64_leading_zeros(number);
        }
        let highest_bit: u32 = 63 - number.leading_zeros();
        let ghost hb = highest_bit as u64;
        proof {
            lemma_bit_ops_basic(number, hb, 0);
            assert(bit_set(number, hb));
            lemma_clear_bit(number, hb);
            lemma_pop_count_clear_bit(number, hb);
        }
        let highest_bit_num: u64 = 1 << highest_bit;
        let rest: u64 = number - highest_bit_num;
        proof {
            assert(rest == number & !(1u64 << hb));
        }
        Self::get_all_possible_combinations_of_bits_helper(rest, vec);

        let ghost base = vec@;
        let length: usize = vec.len();
        let mut idx: usize = 0;
        while idx < length
            invariant
                idx <= length,
                length == base.len(),
                vec@.len() == length + idx,
                vec@.subrange(0, length as int) == base,
                forall|j: int| 0 <= j < idx ==> vec@[length + j] == base[j] | highest_bit_num,
                highest_bit_num == 1u64 << hb,
                hb < 64,
                bit_set(number, hb),
                rest == number & !(1u64 << hb),
                base.no_duplicates(),
                forall|s: u64| base.contains(s) <==> is_submask(s, rest),
            decreases length - idx,
        {
            let val: u64 = vec[idx];
            proof {
                assert(val == base[idx as int]);
                assert(base.contains(val));
                lemma_submask_split(number, hb, val);
                lemma_set_bit(val, hb);
            }
            vec.push(val + highest_bit_num);
            proof {
                assert(vec@.subrange(0, length as int) =~= base);
            }
            idx = idx + 1;
        }
        proof {
            assert(pop_count(number) == pop_count(rest) + 1);
            assert(two_to_the(pop_count(number)) == 2 * two_to_the(pop_count(rest)));
            assert forall|p: int, q: int| 0 <= p < q < vec@.len() implies vec@[p] != vec@[q] by {
                if q < length {
                    assert(vec@[p] == base[p] && vec@[q] == base[q]);
                } else if p < length {
                    let bq = base[q - length];
                    assert(vec@[p] == base[p]);
                    assert(base.contains(base[p]));
                    assert(base.contains(bq));
                    lemma_submask_split(number, hb, base[p]);
                    lemma_submask_split(number, hb, bq);
                    lemma_set_bit(bq, hb);
                } else {
                    let bp = base[p - length];
                    let bq = base[q - length];
                    assert(base.contains(bp));
                    assert(base.contains(bq));
                    lemma_submask_split(number, hb, bp);
                    lemma_submask_split(number, hb, bq);
                    lemma_set_bit(bp, hb);
                    lemma_set_bit(bq, hb);
                }
            }
            assert forall|s: u64| vec@.contains(s) <==> is_submask(s, number) by {
                lemma_submask_split(number, hb, s);
                if vec@.contains(s) {
                    let n = choose|n: int| 0 <= n < vec@.len() && vec@[n] == s;
                    if n < length {
                        assert(base[n] == s);
                        assert(base.contains(s));
                    } else {
                        let b = base[n - length];
                        assert(base.contains(b));
                        lemma_submask_split(number, hb, b);
                        lemma_set_bit(b, hb);
                    }
                }
                if is_submask(s, number) {
                    lemma_bit_ops_basic(s, hb, 0);
                    if (s >> hb) & 1 == 0 {
                        assert(base.contains(s));
                        let n = choose|n: int| 0 <= n < base.len() && base[n] == s;
                        assert(vec@[n] == s);
                        assert(vec@.contains(s));
                    } else {
                        lemma_clear_bit(s, hb);
                        let t = s & !(1u64 << hb);
                        assert(base.contains(t));
                        let n = choose|n: int| 0 <= n < base.len() && base[n] == t;
                        assert(vec@[length + n] == t | highest_bit_num);
                        assert(t | (1u64 << hb) == s);
                        assert(vec@.contains(s));
                    }
                }
            }
            lemma_two_to_the_pos(pop_count(rest));
            assert(vec@[0] == base[0]);
            assert(vec@[vec@.len() - 1] == base[length - 1] | highest_bit_num);
            assert(rest | (1u64 << hb) == number);
        }
    }

    /// The positions of the set bits of `num`, in increasing order, found
    /// by repeatedly taking and clearing the lowest set bit.
    pub fn find_bit_positions_from_num(num: u64) -> (res: Vec<u64>)
        ensures
            res@ == bit_positions(num),
    {
        let ghost orig = num;
        let mut num = num;
        let mut res: Vec<u64> = Vec::new();
        while num > 0
            invariant
                res@ + bit_positions(num) == bit_positions(orig),
            decreases num,
        {
            proof {
                lemma_bit_positions_lowest(num);
            }
            let ghost res_old = res@;
            let ghost num_old = num;
            let pos: u32 = num.trailing_zeros();
            res.push(pos as u64);
            num = num - (1u64 << pos);
            proof {
                assert(res@ + bit_positions(num) =~= res_old + (seq![pos as u64] + bit_positions(
                    num,
                )));
            }
        }
        proof {
            lemma_bit_positions_upto_zero(64);
            assert(res@ + bit_positions(0) =~= res@);
        }
        res
    }

    /// Every bitboard with exactly `num` set bits, each exactly once.
    pub fn board_choose_n_all_combinations(num: u64) -> (res: Vec<u64>)
        requires
            num >= 1,
        ensures
            res@.no_duplicates(),
            forall|x: u64| #[trigger] res@.contains(x) <==> pop_count(x) == num,
    {
        if num > 64 {
            proof {
                assert forall|x: u64| pop_count(x) != num by {
                    lemma_pop_count_le_64(x);
                }
            }
            let res: Vec<u64> = Vec::new();
            return res;
        }
        let res = Self::choose_bits_below(num, 64);
        proof {
            assert forall|x: u64| res@.contains(x) <==> pop_count(x) == num by {
                assert(high_bits_clear(x, 64));
            }
        }
        res
    }

    /// Every bitboard with exactly `num` set bits, all below `limit`: for
    /// each possible highest bit, extend every smaller combination by it.
    fn choose_bits_below(num: u64, limit: u64) -> (res: Vec<u64>)
        requires
            num <= 64,
            limit <= 64,
        ensures
            res@.no_duplicates(),
            forall|x: u64|
                #[trigger] res@.contains(x) <==> (pop_count(x) == num && high_bits_clear(
                    x,
                    limit as int,
                )),
        decreases num,
    {
        let mut res: Vec<u64> = Vec::new();
        if num == 0 {
            res.push(0);
            proof {
                assert forall|x: u64|
                    res@.contains(x) <==> (pop_count(x) == 0 && high_bits_clear(
                        x,
                        limit as int,
                    )) by {
                    lemma_pop_count_zero(x);
                    if res@.contains(x) {
                        assert(x == res@[0]);
                        assert forall|j: u64| limit <= j < 64 implies !bit_set(0u64, j) by {
                            lemma_bit_ops_basic(0, j, 0);
                            lemma_bit_ops_basic(1, j, 0);
                        }
                    }
                    if pop_count(x) == 0 {
                        assert(res@[0] == x);
                    }
                }
            }
            return res;
        }
        if limit < num {
            proof {
                assert forall|x: u64|
                    !(pop_count(x) == num && high_bits_clear(x, limit as int)) by {
                    if high_bits_clear(x, limit as int) {
                        lemma_pop_count_high_clear(x, limit as int);
                    }
                }
            }
            return res;
        }
        let mut i: u64 = num - 1;
        proof {
            assert forall|x: u64|
                !(pop_count(x) == num && high_bits_clear(x, i as int)) by {
                if high_bits_clear(x, i as int) {
                    lemma_pop_count_high_clear(x, i as int);
                }
            }
        }
        while i < limit
            invariant
                num >= 1,
                num - 1 <= i <= limit,
                limit <= 64,
                res@.no_duplicates(),
                forall|x: u64|
                    #[trigger] res@.contains(x) <==> (pop_count(x) == num && high_bits_clear(
                        x,
                        i as int,
                    )),
            decreases limit - i,
        {
            let sub: Vec<u64> = Self::choose_bits_below(num - 1, i);
            let ghost res_entry = res@;
            let mut n: usize = 0;
            while n < sub.len()
                invariant
                    n <= sub.len(),
                    i < 64,
                    res@.len() == res_entry.len() + n,
                    forall|p: int| 0 <= p < res_entry.len() ==> res@[p] == res_entry[p],
                    forall|m: int|
                        0 <= m < n ==> res@[res_entry.len() + m] == #[trigger] sub@[m] | (1u64
                            << i),
                decreases sub.len() - n,
            {
                let y: u64 = sub[n];
                res.push(y | (1u64 << i));
                n = n + 1;
            }
            proof {
                let b = 1u64 << i;
                let ghost elen = res_entry.len() as int;
                assert forall|x: u64|
                    res@.contains(x) <==> (pop_count(x) == num && high_bits_clear(
                        x,
                        i as int + 1,
                    )) by {
                    if res@.contains(x) {
                        let idx = choose|idx: int| 0 <= idx < res@.len() && res@[idx] == x;
                        if idx < elen {
                            assert(res_entry[idx] == x);
                            assert(res_entry.contains(x));
                            assert(high_bits_clear(x, i as int));
                            assert forall|j: u64| i + 1 <= j < 64 implies !bit_set(x, j) by {
                                assert(!bit_set(x, j));
                            }
                        } else {
                            let z = sub@[idx - elen];
                            assert(x == z | b);
                            assert(sub@.contains(z));
                            assert(high_bits_clear(z, i as int));
                            assert(!bit_set(z, i));
                            lemma_bit_ops_basic(z, i, 0);
                            lemma_set_bit(z, i);
                            lemma_pop_count_or_disjoint(z, b);
                            lemma_pop_count_single(i);
                            assert(pop_count(x) == num);
                            assert forall|j: u64| i + 1 <= j < 64 implies !bit_set(x, j) by {
                                assert(!bit_set(z, j));
                                assert((x >> j) & 1 == (z >> j) & 1);
                            }
                        }
                    }
                    if pop_count(x) == num && high_bits_clear(x, i as int + 1) {
                        lemma_bit_ops_basic(x, i, 0);
                        if (x >> i) & 1 == 0 {
                            assert forall|j: u64| i <= j < 64 implies !bit_set(x, j) by {
                                if j != i {
                                    assert(!bit_set(x, j));
                                }
                            }
                            assert(high_bits_clear(x, i as int));
                            assert(res_entry.contains(x));
                            let idx = choose|idx: int|
                                0 <= idx < res_entry.len() && res_entry[idx] == x;
                            assert(res@[idx] == x);
                            assert(res@.contains(x));
                        } else {
                            assert(bit_set(x, i));
                            lemma_clear_bit(x, i);
                            lemma_pop_count_clear_bit(x, i);
                            let z = x & !(1u64 << i);
                            assert forall|j: u64| i <= j < 64 implies !bit_set(z, j) by {
                                if j != i {
                                    assert((z >> j) & 1 == (x >> j) & 1);
                                    assert(!bit_set(x, j));
                                }
                            }
                            assert(high_bits_clear(z, i as int));
                            assert(sub@.contains(z));
                            let m = choose|m: int| 0 <= m < sub@.len() && sub@[m] == z;
                            assert(res@[elen + m] == z | b);
                            assert(z | b == x);
                            assert(res@.contains(x));
                        }
                    }
                }
                assert forall|p: int, q: int| 0 <= p < q < res@.len() implies res@[p] != res@[q] by {
                    if q < elen {
                        assert(res@[p] == res_entry[p] && res@[q] == res_entry[q]);
                    } else if p < elen {
                        let z = sub@[q - elen];
                        assert(res@[p] == res_entry[p]);
                        assert(res@[q] == z | b);
                        assert(res_entry.contains(res_entry[p]));
                        assert(high_bits_clear(res_entry[p], i as int));
                        assert(!bit_set(res_entry[p], i));
                        lemma_bit_ops_basic(res_entry[p], i, 0);
                        assert(sub@.contains(z));
                        assert(high_bits_clear(z, i as int));
                        assert(!bit_set(z, i));
                        lemma_bit_ops_basic(z, i, 0);
                        lemma_set_bit(z, i);
                    } else {
                        let zp = sub@[p - elen];
                        let zq = sub@[q - elen];
                        assert(res@[p] == zp | b && res@[q] == zq | b);
                        assert(sub@.contains(zp) && sub@.contains(zq));
                        assert(high_bits_clear(zp, i as int) && high_bits_clear(zq, i as int));
                        assert(!bit_set(zp, i) && !bit_set(zq, i));
                        lemma_bit_ops_basic(zp, i, 0);
                        lemma_bit_ops_basic(zq, i, 0);
                        lemma_set_bit(zp, i);
                        lemma_set_bit(zq, i);
                        assert(sub@[p - elen] != sub@[q - elen]);
                    }
                }
                assert(res@.no_duplicates());
            }
            i = i + 1;
        }
        res
    }

    /// The base attack mask of every square for one move rule: key `p`
    /// (0..63) maps to the squares reachable from `p` on an empty board.
    pub fn make_attack_mask_hashmap(piece_moves: &Vec<Vec<(i32, i32)>>) -> (m: HashMap<u64, u64>)
        ensures
            forall|p: u64| #[trigger] m@.contains_key(p) <==> p < 64,
            forall|p: u64| p < 64 ==> m@[p] == attack_mask(piece_moves.deep_view(), p),
    {
        let mut m: HashMap<u64, u64> = HashMap::new();
        let mut i: u64 = 0;
        while i < 64
            invariant
                i <= 64,
                forall|p: u64| #[trigger] m@.contains_key(p) <==> p < i,
                forall|p: u64| p < i ==> m@[p] == attack_mask(piece_moves.deep_view(), p),
            decreases 64 - i,
        {
            let v = Self::threat_generator(piece_moves, i, 0);
            m.insert(i, v);
            i = i + 1;
        }
        m
    }

    /// The full threat table of one move rule: entry `p` of the vector maps
    /// every submask of square `p`'s attack mask to the squares actually
    /// threatened from `p` under that blocker configuration.
    pub fn make_threat_hashmap(piece_moves: &Vec<Vec<(i32, i32)>>) -> (t: Vec<HashMap<u64, u64>>)
        ensures
            t@.len() == 64,
            forall|p: int, s: u64|
                0 <= p < 64 ==> (#[trigger] t@[p]@.contains_key(s) <==> is_submask(
                    s,
                    attack_mask(piece_moves.deep_view(), p as u64),
                )),
            forall|p: int, s: u64|
                0 <= p < 64 && is_submask(s, attack_mask(piece_moves.deep_view(), p as u64))
                    ==> #[trigger] t@[p]@[s] == piece_threats(piece_moves.deep_view(), p as u64, s),
    {
        let ghost rule = piece_moves.deep_view();
        let mut t: Vec<HashMap<u64, u64>> = Vec::new();
        let mut position: u64 = 0;
        while position < 64
            invariant
                position <= 64,
                rule == piece_moves.deep_view(),
                t@.len() == position,
                forall|p: int, s: u64|
                    0 <= p < position ==> (#[trigger] t@[p]@.contains_key(s) <==> is_submask(
                        s,
                        attack_mask(rule, p as u64),
                    )),
                forall|p: int, s: u64|
                    0 <= p < position && is_submask(s, attack_mask(rule, p as u64))
                        ==> #[trigger] t@[p]@[s] == piece_threats(rule, p as u64, s),
            decreases 64 - position,
        {
            let attack_mask_bits = Self::threat_generator(piece_moves, position, 0);
            let combos: Vec<u64> = Self::get_all_possible_combinations_of_bits(attack_mask_bits);
            let mut m: HashMap<u64, u64> = HashMap::new();
            let mut j: usize = 0;
            while j < combos.len()
                invariant
                    j <= combos.len(),
                    rule == piece_moves.deep_view(),
                    position < 64,
                    attack_mask_bits == attack_mask(rule, position),
                    forall|s: u64| #[trigger] combos@.contains(s) <==> is_submask(
                        s,
                        attack_mask_bits,
                    ),
                    forall|s: u64| #[trigger] m@.contains_key(s) ==> combos@.contains(s),
                    forall|mm: int| 0 <= mm < j ==> m@.contains_key(#[trigger] combos@[mm]),
                    forall|s: u64|
                        #[trigger] m@.contains_key(s) ==> m@[s] == piece_threats(
                            rule,
                            position,
                            s,
                        ),
                decreases combos.len() - j,
            {
                let c: u64 = combos[j];
                let v = Self::threat_generator(piece_moves, position, c);
                proof {
                    assert(combos@.contains(c));
                }
                m.insert(c, v);
                j = j + 1;
            }
            proof {
                assert forall|s: u64|
                    #[trigger] m@.contains_key(s) <==> is_submask(s, attack_mask_bits) by {
                    if is_submask(s, attack_mask_bits) {
                        assert(combos@.contains(s));
                        let mm = choose|mm: int| 0 <= mm < combos@.len() && combos@[mm] == s;
                        assert(m@.contains_key(combos@[mm]));
                    }
                }
            }
            let ghost old_t = t@;
            t.push(m);
            proof {
                assert forall|p: int, s: u64|
                    0 <= p < position + 1 implies (#[trigger] t@[p]@.contains_key(s) <==> is_submask(
                    s,
                    attack_mask(rule, p as u64),
                )) by {
                    if p == position {
                        assert(t@[p] == m);
                    } else {
                        assert(t@[p] == old_t[p]);
                    }
                }
                assert forall|p: int, s: u64|
                    0 <= p < position + 1 && is_submask(s, attack_mask(rule, p as u64))
                        implies #[trigger] t@[p]@[s] == piece_threats(rule, p as u64, s) by {
                    if p == position {
                        assert(t@[p] == m);
                        assert(m@.contains_key(s));
                    } else {
                        assert(t@[p] == old_t[p]);
                        assert(old_t[p]@[s] == piece_threats(rule, p as u64, s));
                    }
                }
            }
            position = position + 1;
        }
        t
    }

    /// The bit-position cache: every bitboard with between one and
    /// `max_positions` set bits, mapped to its ordered list of positions.
    pub fn make_num_to_bit_positions_hashmap(max_positions: u64) -> (m: HashMap<u64, Vec<u64>>)
        requires
            max_positions < u64::MAX,
        ensures
            forall|x: u64| #[trigger] m@.contains_key(x) <==> 1 <= pop_count(x) <= max_positions,
            forall|x: u64| #[trigger] m@.contains_key(x) ==> m@[x]@ == bit_positions(x),
    {
        let mut all_bit_positions: Vec<u64> = Vec::new();
        let mut i: u64 = 1;
        while i <= max_positions
            invariant
                1 <= i <= max_positions + 1,
                max_positions < u64::MAX,
                forall|x: u64|
                    #[trigger] all_bit_positions@.contains(x) <==> 1 <= pop_count(x) < i,
            decreases max_positions + 1 - i,
        {
            let mut batch = Self::board_choose_n_all_combinations(i);
            let ghost old_all = all_bit_positions@;
            let ghost batch_snap = batch@;
            all_bit_positions.append(&mut batch);
            proof {
                assert forall|x: u64|
                    #[trigger] all_bit_positions@.contains(x) <==> 1 <= pop_count(x) < i + 1 by {
                    if all_bit_positions@.contains(x) {
                        let idx = choose|idx: int|
                            0 <= idx < all_bit_positions@.len() && all_bit_positions@[idx] == x;
                        if idx < old_all.len() {
                            assert(old_all[idx] == x);
                            assert(old_all.contains(x));
                        } else {
                            assert(batch_snap[idx - old_all.len()] == x);
                            assert(batch_snap.contains(x));
                        }
                    }
                    if 1 <= pop_count(x) < i + 1 {
                        if pop_count(x) < i {
                            assert(old_all.contains(x));
                            let idx = choose|idx: int|
                                0 <= idx < old_all.len() && old_all[idx] == x;
                            assert(all_bit_positions@[idx] == x);
                        } else {
                            assert(batch_snap.contains(x));
                            let idx = choose|idx: int|
                                0 <= idx < batch_snap.len() && batch_snap[idx] == x;
                            assert(all_bit_positions@[old_all.len() + idx] == x);
                        }
                    }
                }
            }
            i = i + 1;
        }
        let mut hashmap: HashMap<u64, Vec<u64>> = HashMap::new();
        let mut n: usize = 0;
        while n < all_bit_positions.len()
            invariant
                n <= all_bit_positions@.len(),
                forall|x: u64|
                    #[trigger] all_bit_positions@.contains(x) <==> 1 <= pop_count(x)
                        <= max_positions,
                forall|x: u64| #[trigger] hashmap@.contains_key(x) ==> all_bit_positions@.contains(
                    x,
                ),
                forall|mm: int|
                    0 <= mm < n ==> hashmap@.contains_key(#[trigger] all_bit_positions@[mm]),
                forall|x: u64|
                    #[trigger] hashmap@.contains_key(x) ==> hashmap@[x]@ == bit_positions(x),
            decreases all_bit_positions@.len() - n,
        {
            let bp: u64 = all_bit_positions[n];
            let v = Self::find_bit_positions_from_num(bp);
            proof {
                assert(all_bit_positions@.contains(bp));
            }
            hashmap.insert(bp, v);
            n = n + 1;
        }
        proof {
            assert forall|x: u64|
                #[trigger] hashmap@.contains_key(x) <==> 1 <= pop_count(x) <= max_positions by {
                if 1 <= pop_count(x) <= max_positions {
                    assert(all_bit_positions@.contains(x));
                    let mm = choose|mm: int|
                        0 <= mm < all_bit_positions@.len() && all_bit_positions@[mm] == x;
                    assert(hashmap@.contains_key(all_bit_positions@[mm]));
                }
            }
        }
        hashmap
    }

    /// An attack-mask table holds exactly squares 0..63, each mapped to
    /// the squares its piece reaches on an empty board.
    pub open spec fn attack_table_wf(m: Map<u64, u64>, rule: Seq<Seq<(i32, i32)>>) -> bool {
        &&& forall|p: u64| #[trigger] m.contains_key(p) <==> p < 64
        &&& forall|p: u64| p < 64 ==> m[p] == attack_mask(rule, p)
    }

    /// A threat table covers every square and every submask of that
    /// square's attack mask, with the modelled threat set as value.
    pub open spec fn threat_table_wf(t: Seq<HashMap<u64, u64>>, rule: Seq<Seq<(i32, i32)>>) -> bool {
        &&& t.len() == 64
        &&& forall|p: int, s: u64|
            0 <= p < 64 ==> (#[trigger] t[p]@.contains_key(s) <==> is_submask(
                s,
                attack_mask(rule, p as u64),
            ))
        &&& forall|p: int, s: u64|
            0 <= p < 64 && is_submask(s, attack_mask(rule, p as u64)) ==> #[trigger] t[p]@[s]
                == piece_threats(rule, p as u64, s)
    }

    /// Every table holds exactly what the movement model prescribes for
    /// its piece kind, the pawn masks are the fixed file masks, and the
    /// bit-position cache covers all boards of one to three set bits.
    pub open spec fn wf(&self) -> bool {
        &&& Self::attack_table_wf(self.rook_attack_mask_hashmap@, rook_rule())
        &&& Self::threat_table_wf(self.rook_threat_hashmap@, rook_rule())
        &&& Self::attack_table_wf(self.bishop_attack_mask_hashmap@, bishop_rule())
        &&& Self::threat_table_wf(self.bishop_threat_hashmap@, bishop_rule())
        &&& Self::attack_table_wf(self.knight_attack_mask_hashmap@, knight_rule())
        &&& Self::threat_table_wf(self.knight_threat_hashmap@, knight_rule())
        &&& Self::attack_table_wf(self.king_attack_mask_hashmap@, king_rule())
        &&& Self::threat_table_wf(self.king_threat_hashmap@, king_rule())
        &&& self.pawn_middle_mask == PAWN_MIDDLE_MASK
        &&& self.pawn_left_mask == PAWN_LEFT_MASK
        &&& self.pawn_right_mask == PAWN_RIGHT_MASK
        &&& self.num_to_bit_position_max_val == NUM_TO_BIT_POSITION_MAX_VAL
        &&& forall|x: u64|
            #[trigger] self.num_to_bit_position_hashmap@.contains_key(x) <==> 1 <= pop_count(x)
                <= NUM_TO_BIT_POSITION_MAX_VAL
        &&& forall|x: u64|
            #[trigger] self.num_to_bit_position_hashmap@.contains_key(x)
                ==> self.num_to_bit_position_hashmap@[x]@ == bit_positions(x)
    }

    /// Builds the immutable shared tables from the fixed move rules.
    pub fn new() -> (res: Self)
        ensures
            res.wf(),
    {
        Constants {
            rook_attack_mask_hashmap: Self::make_attack_mask_hashmap(&Self::get_rook_moves()),
            rook_threat_hashmap: Self::make_threat_hashmap(&Self::get_rook_moves()),
            bishop_attack_mask_hashmap: Self::make_attack_mask_hashmap(&Self::get_bishop_moves()),
            bishop_threat_hashmap: Self::make_threat_hashmap(&Self::get_bishop_moves()),
            knight_attack_mask_hashmap: Self::make_attack_mask_hashmap(&Self::get_knight_moves()),
            knight_threat_hashmap: Self::make_threat_hashmap(&Self::get_knight_moves()),
            king_attack_mask_hashmap: Self::make_attack_mask_hashmap(&Self::get_king_moves()),
            king_threat_hashmap: Self::make_threat_hashmap(&Self::get_king_moves()),
            pawn_middle_mask: PAWN_MIDDLE_MASK,
            pawn_left_mask: PAWN_LEFT_MASK,
            pawn_right_mask: PAWN_RIGHT_MASK,
            num_to_bit_position_hashmap: Self::make_num_to_bit_positions_hashmap(
                NUM_TO_BIT_POSITION_MAX_VAL,
            ),
            num_to_bit_position_max_val: NUM_TO_BIT_POSITION_MAX_VAL,
        }
    }

    /// Coordinate round trip: mapping any square to its column and row and
    /// back yields the same square.
    pub proof fn lemma_coordinate_round_trip()
        ensures
            forall|sq: u64|
                sq < 64 ==> #[trigger] square_of((sq % 8) as int, (sq / 8) as int) == sq,
    {
    }

    /// Table coverage: in a well-formed table set, every square and every
    /// submask of that square's base attack mask has a threat-table entry,
    /// for each piece kind.
    pub proof fn lemma_threat_table_coverage(c: &Constants)
        requires
            c.wf(),
        ensures
            forall|p: int, s: u64|
                0 <= p < 64 && is_submask(s, attack_mask(rook_rule(), p as u64))
                    ==> #[trigger] c.rook_threat_hashmap@[p]@.contains_key(s),
            forall|p: int, s: u64|
                0 <= p < 64 && is_submask(s, attack_mask(bishop_rule(), p as u64))
                    ==> #[trigger] c.bishop_threat_hashmap@[p]@.contains_key(s),
            forall|p: int, s: u64|
                0 <= p < 64 && is_submask(s, attack_mask(knight_rule(), p as u64))
                    ==> #[trigger] c.knight_threat_hashmap@[p]@.contains_key(s),
            forall|p: int, s: u64|
                0 <= p < 64 && is_submask(s, attack_mask(king_rule(), p as u64))
                    ==> #[trigger] c.king_threat_hashmap@[p]@.contains_key(s),
    {
    }

    /// The rook's rays: left, right, up, down, each seven steps long.
    pub fn get_rook_moves() -> (res: Vec<Vec<(i32, i32)>>)
        ensures
            res.deep_view() == rook_rule(),
    {
        let res: Vec<Vec<(i32, i32)>> = vec![
            vec![(1, 0), (2, 0), (3, 0), (4, 0), (5, 0), (6, 0), (7, 0)],
            vec![(-1, 0), (-2, 0), (-3, 0), (-4, 0), (-5, 0), (-6, 0), (-7, 0)],
            vec![(0, 1), (0, 2), (0, 3), (0, 4), (0, 5), (0, 6), (0, 7)],
            vec![(0, -1), (0, -2), (0, -3), (0, -4), (0, -5), (0, -6), (0, -7)],
        ];
        proof {
            assert(res.deep_view() =~~= rook_rule());
        }
        res
    }

    /// The bishop's rays: the four diagonals, each seven steps long.
    pub fn get_bishop_moves() -> (res: Vec<Vec<(i32, i32)>>)
        ensures
            res.deep_view() == bishop_rule(),
    {
        let res: Vec<Vec<(i32, i32)>> = vec![
            vec![(1, 1), (2, 2), (3, 3), (4, 4), (5, 5), (6, 6), (7, 7)],
            vec![(-1, 1), (-2, 2), (-3, 3), (-4, 4), (-5, 5), (-6, 6), (-7, 7)],
            vec![(1, -1), (2, -2), (3, -3), (4, -4), (5, -5), (6, -6), (7, -7)],
            vec![(-1, -1), (-2, -2), (-3, -3), (-4, -4), (-5, -5), (-6, -6), (-7, -7)],
        ];
        proof {
            assert(res.deep_view() =~~= bishop_rule());
        }
        res
    }

    /// The knight's eight jumps, one single-step ray each.
    pub fn get_knight_moves() -> (res: Vec<Vec<(i32, i32)>>)
        ensures
            res.deep_view() == knight_rule(),
    {
        let res: Vec<Vec<(i32, i32)>> = vec![
            vec![(1, 2)],
            vec![(2, 1)],
            vec![(-1, -2)],
            vec![(-2, -1)],
            vec![(-1, 2)],
            vec![(-2, 1)],
            vec![(1, -2)],
            vec![(2, -1)],
        ];
        proof {
            assert(res.deep_view() =~~= knight_rule());
        }
        res
    }

    /// The king's eight neighbouring squares, one single-step ray each.
    pub fn get_king_moves() -> (res: Vec<Vec<(i32, i32)>>)
        ensures
            res.deep_view() == king_rule(),
    {
        let res: Vec<Vec<(i32, i32)>> = vec![
            vec![(1, 1)],
            vec![(0, 1)],
            vec![(-1, 1)],
            vec![(-1, 0)],
            vec![(-1, -1)],
            vec![(0, -1)],
            vec![(1, -1)],
            vec![(1, 0)],
        ];
        proof {
            assert(res.deep_view() =~~= king_rule());
        }
        res
    }
}

} // verus!
