//! Bit-level model of a bitboard: population count, single-bit tests,
//! submasks, and the ordered list of set-bit positions, together with the
//! lemmas that connect these notions to the machine's bitwise operators.

use vstd::prelude::*;

verus! {

/// Number of set bits in a 64-bit bitboard.
pub open spec fn pop_count(x: u64) -> nat
    decreases x,
{
    if x == 0 {
        0
    } else {
        ((x % 2) + pop_count(x / 2)) as nat
    }
}

/// Bit `i` of `x` is set; board squares are numbered 0..63.
pub open spec fn bit_set(x: u64, i: u64) -> bool {
    i < 64 && (x >> i) & 1 == 1
}

/// Every bit set in `s` is also set in `m`.
pub open spec fn is_submask(s: u64, m: u64) -> bool {
    s & m == s
}

/// 2^n, the number of submasks of an n-bit mask.
pub open spec fn two_to_the(n: nat) -> nat
    decreases n,
{
    if n == 0 {
        1
    } else {
        2 * two_to_the((n - 1) as nat)
    }
}

/// All bits of `x` at positions `limit` and above are clear.
pub open spec fn high_bits_clear(x: u64, limit: int) -> bool {
    forall|j: u64| limit <= j < 64 ==> !bit_set(x, j)
}

/// Positions below `k` whose bit is set in `x`, in increasing order.
pub open spec fn bit_positions_upto(x: u64, k: int) -> Seq<u64>
    decreases k,
{
    if k <= 0 {
        Seq::empty()
    } else if bit_set(x, (k - 1) as u64) {
        bit_positions_upto(x, k - 1).push((k - 1) as u64)
    } else {
        bit_positions_upto(x, k - 1)
    }
}

/// The positions of all set bits of `x`, in increasing order.
pub open spec fn bit_positions(x: u64) -> Seq<u64> {
    bit_positions_upto(x, 64)
}

/// Population count, computed by peeling off the low bit.
pub fn count_set_bits(x: u64) -> (r: u32)
    ensures
        r == pop_count(x),
{
    proof {
        lemma_pop_count_le_64(x);
    }
    let mut n: u64 = x;
    let mut c: u32 = 0;
    while n > 0
        invariant
            c + pop_count(n) == pop_count(x),
            pop_count(x) <= 64,
        decreases n,
    {
        c = c + (n % 2) as u32;
        n = n / 2;
    }
    c
}

/// Algebraic identities of `|` and `&` that the default solver does not know.
pub proof fn lemma_bit_ops_basic(a: u64, b: u64, c: u64)
    by (bit_vector)
    ensures
        a | 0 == a,
        0 | a == a,
        a & 0 == 0,
        0 & a == 0,
        a | b == b | a,
        a & b == b & a,
        (a | b) | c == a | (b | c),
        (a & b) & b == a & b,
        (a | b) & c == (a & c) | (b & c),
        1u64 << 0u64 == 1,
        (a >> b) & 1 <= 1,
        a == 0 ==> a | b == b,
        0u64 >> b == 0,
{
}

/// A power of two is positive.
pub proof fn lemma_two_to_the_pos(n: nat)
    ensures
        two_to_the(n) >= 1,
    decreases n,
{
    if n > 0 {
        lemma_two_to_the_pos((n - 1) as nat);
    }
}

/// A word with no set bit among 0..63 is zero.
pub proof fn lemma_no_bits_set_zero(x: u64)
    ensures
        (forall|j: u64| j < 64 ==> #[trigger] ((x >> j) & 1) == 0) ==> x == 0,
{
    if (forall|j: u64| j < 64 ==> #[trigger] ((x >> j) & 1) == 0) && x != 0 {
        vstd::std_specs::bits::axiom_u64_trailing_zeros(x);
        let tz = vstd::std_specs::bits::u64_trailing_zeros(x) as u64;
        assert((x >> tz) & 1 == 0);
    }
}

/// Clearing a set bit `i`: the result drops exactly that bit, equals the
/// arithmetic difference, and keeps every other bit.
pub proof fn lemma_clear_bit(x: u64, i: u64)
    by (bit_vector)
    requires
        i < 64,
        (x >> i) & 1 == 1,
    ensures
        1u64 << i >= 1,
        1u64 << i <= x,
        x & !(1u64 << i) == x - (1u64 << i),
        ((x & !(1u64 << i)) >> i) & 1 == 0,
        (x & !(1u64 << i)) | (1u64 << i) == x,
        (x & !(1u64 << i)) & (1u64 << i) == 0,
        forall|j: u64|
            j < 64 && j != i ==> #[trigger] ((x & !(1u64 << i)) >> j) & 1 == (x >> j) & 1,
{
}

/// Setting a clear bit `i`: the result equals the arithmetic sum, does not
/// overflow, and keeps every other bit.
pub proof fn lemma_set_bit(y: u64, i: u64)
    by (bit_vector)
    requires
        i < 64,
        (y >> i) & 1 == 0,
    ensures
        y & (1u64 << i) == 0,
        y | (1u64 << i) == y + (1u64 << i),
        ((y | (1u64 << i)) >> i) & 1 == 1,
        (y | (1u64 << i)) & !(1u64 << i) == y,
        forall|j: u64| j < 64 && j != i ==> #[trigger] ((y | (1u64 << i)) >> j) & 1 == (y >> j) & 1,
{
}

/// Parity and halving distribute over a disjoint union.
pub proof fn lemma_disjoint_halves(a: u64, b: u64)
    by (bit_vector)
    requires
        a & b == 0,
    ensures
        (a | b) % 2 == a % 2 + b % 2,
        (a | b) / 2 == (a / 2) | (b / 2),
        (a / 2) & (b / 2) == 0,
{
}

/// Halving a power of two.
pub proof fn lemma_shl_halves(i: u64)
    by (bit_vector)
    requires
        0 < i < 64,
    ensures
        (1u64 << i) % 2 == 0,
        (1u64 << i) / 2 == 1u64 << ((i - 1) as u64),
{
}

/// How submasks of `m` split over a set bit `i` of `m`: a submask either
/// avoids bit `i` and is a submask of `m` without `i`, or contains bit `i`
/// and drops to one after clearing it.
pub proof fn lemma_submask_split(m: u64, i: u64, s: u64)
    by (bit_vector)
    requires
        i < 64,
        (m >> i) & 1 == 1,
    ensures
        s & (m & !(1u64 << i)) == s ==> s & m == s,
        s & (m & !(1u64 << i)) == s ==> (s | (1u64 << i)) & m == (s | (1u64 << i)),
        s & (m & !(1u64 << i)) == s ==> (s >> i) & 1 == 0,
        s & m == s && (s >> i) & 1 == 0 ==> s & (m & !(1u64 << i)) == s,
        s & m == s && (s >> i) & 1 == 1 ==> (s & !(1u64 << i)) & (m & !(1u64 << i)) == (s & !(
        1u64 << i)),
        s & 0 == s ==> s == 0,
{
}

/// `pop_count` is zero exactly on the zero board.
pub proof fn lemma_pop_count_zero(x: u64)
    ensures
        pop_count(x) == 0 <==> x == 0,
    decreases x,
{
    if x != 0 && x % 2 == 0 {
        lemma_pop_count_zero(x / 2);
    }
}

/// `pop_count` adds over a disjoint union.
pub proof fn lemma_pop_count_or_disjoint(a: u64, b: u64)
    requires
        a & b == 0,
    ensures
        pop_count(a | b) == pop_count(a) + pop_count(b),
    decreases a + b,
{
    if a == 0 {
        lemma_bit_ops_basic(a, b, 0);
    } else if b == 0 {
        lemma_bit_ops_basic(a, b, 0);
        lemma_bit_ops_basic(b, a, 0);
    } else {
        lemma_disjoint_halves(a, b);
        lemma_pop_count_or_disjoint(a / 2, b / 2);
    }
}

/// A single set bit counts as one.
pub proof fn lemma_pop_count_single(i: u64)
    requires
        i < 64,
    ensures
        pop_count(1u64 << i) == 1,
    decreases i,
{
    if i == 0 {
        lemma_bit_ops_basic(0, 0, 0);
        assert(pop_count(0) == 0);
        assert(pop_count(1) == 1);
    } else {
        lemma_shl_halves(i);
        lemma_pop_count_single((i - 1) as u64);
        assert(pop_count(1u64 << i) == ((1u64 << i) % 2 + pop_count((1u64 << i) / 2)) as nat);
    }
}

/// Clearing a set bit lowers `pop_count` by exactly one.
pub proof fn lemma_pop_count_clear_bit(x: u64, i: u64)
    requires
        bit_set(x, i),
    ensures
        pop_count(x & !(1u64 << i)) == pop_count(x) - 1,
        pop_count(x) >= 1,
{
    lemma_clear_bit(x, i);
    let y = x & !(1u64 << i);
    lemma_pop_count_or_disjoint(y, 1u64 << i);
    lemma_pop_count_single(i);
}

/// A board whose bits all sit below `k` has at most `k` set bits.
pub proof fn lemma_pop_count_high_clear(x: u64, k: int)
    requires
        0 <= k <= 64,
        high_bits_clear(x, k),
    ensures
        pop_count(x) <= k,
    decreases k,
{
    if k == 0 {
        assert forall|j: u64| j < 64 implies #[trigger] ((x >> j) & 1) == 0 by {
            lemma_bit_ops_basic(x, j, 0);
            assert(!bit_set(x, j));
        }
        lemma_no_bits_set_zero(x);
    } else {
        let i = (k - 1) as u64;
        if bit_set(x, i) {
            lemma_pop_count_clear_bit(x, i);
            lemma_clear_bit(x, i);
            let y = x & !(1u64 << i);
            assert forall|j: u64| k - 1 <= j < 64 implies !bit_set(y, j) by {
                if j == i {
                } else {
                    assert((y >> j) & 1 == (x >> j) & 1);
                    assert(!bit_set(x, j));
                }
            }
            lemma_pop_count_high_clear(y, k - 1);
        } else {
            assert forall|j: u64| k - 1 <= j < 64 implies !bit_set(x, j) by {
                if j != i {
                    assert(!bit_set(x, j));
                }
            }
            lemma_pop_count_high_clear(x, k - 1);
        }
    }
}

/// No 64-bit board has more than 64 set bits.
pub proof fn lemma_pop_count_le_64(x: u64)
    ensures
        pop_count(x) <= 64,
{
    lemma_pop_count_high_clear(x, 64);
}

/// The zero board has no set-bit positions.
pub proof fn lemma_bit_positions_upto_zero(k: int)
    requires
        k <= 64,
    ensures
        bit_positions_upto(0, k).len() == 0,
    decreases k,
{
    if k > 0 {
        lemma_bit_ops_basic(0, (k - 1) as u64, 0);
        lemma_bit_ops_basic(1, (k - 1) as u64, 0);
        assert((0u64 >> ((k - 1) as u64)) & 1 == 0);
        lemma_bit_positions_upto_zero(k - 1);
    }
}

/// Every entry of the position list is a set bit below `k`, and every set
/// bit below `k` appears in the list.
pub proof fn lemma_bit_positions_upto_props(x: u64, k: int)
    requires
        0 <= k <= 64,
    ensures
        forall|n: int|
            0 <= n < bit_positions_upto(x, k).len() ==> bit_set(
                x,
                #[trigger] bit_positions_upto(x, k)[n],
            ) && bit_positions_upto(x, k)[n] < k,
        forall|j: u64| j < k && bit_set(x, j) ==> bit_positions_upto(x, k).contains(j),
    decreases k,
{
    if k > 0 {
        lemma_bit_positions_upto_props(x, k - 1);
        let c = (k - 1) as u64;
        let prev = bit_positions_upto(x, k - 1);
        assert forall|j: u64| j < k && bit_set(x, j) implies bit_positions_upto(x, k).contains(
            j,
        ) by {
            if j < k - 1 {
                let n = choose|n: int| 0 <= n < prev.len() && prev[n] == j;
                assert(bit_positions_upto(x, k)[n] == j);
            } else {
                assert(bit_positions_upto(x, k)[bit_positions_upto(x, k).len() - 1] == j);
            }
        }
    }
}

/// Peeling the lowest set bit takes the first entry off the position list.
pub proof fn lemma_bit_positions_lowest(x: u64)
    requires
        x != 0,
    ensures
        ({
            let i = vstd::std_specs::bits::u64_trailing_zeros(x) as u64;
            &&& i < 64
            &&& bit_set(x, i)
            &&& 1u64 << i <= x
            &&& x & !(1u64 << i) == x - (1u64 << i)
            &&& bit_positions(x) == seq![i] + bit_positions((x - (1u64 << i)) as u64)
        }),
{
    vstd::std_specs::bits::axiom_u64_trailing_zeros(x);
    let i = vstd::std_specs::bits::u64_trailing_zeros(x) as u64;
    lemma_clear_bit(x, i);
    lemma_bit_positions_lowest_aux(x, 64);
}

proof fn lemma_bit_positions_lowest_aux(x: u64, k: int)
    requires
        x != 0,
        0 <= k <= 64,
    ensures
        ({
            let i = vstd::std_specs::bits::u64_trailing_zeros(x) as u64;
            let y = x & !(1u64 << i);
            if k <= i {
                bit_positions_upto(x, k) == Seq::<u64>::empty() && bit_positions_upto(y, k)
                    == Seq::<u64>::empty()
            } else {
                bit_positions_upto(x, k) == seq![i] + bit_positions_upto(y, k)
            }
        }),
    decreases k,
{
    vstd::std_specs::bits::axiom_u64_trailing_zeros(x);
    let i = vstd::std_specs::bits::u64_trailing_zeros(x) as u64;
    lemma_clear_bit(x, i);
    let y = x & !(1u64 << i);
    if k <= 0 {
    } else {
        lemma_bit_positions_lowest_aux(x, k - 1);
        let c = (k - 1) as u64;
        if c < i {
            assert((x >> c) & 1 == 0);
            assert((y >> c) & 1 == (x >> c) & 1);
            assert(!bit_set(x, c) && !bit_set(y, c));
        } else if c == i {
            assert(bit_set(x, i));
            assert(!bit_set(y, i));
            assert(bit_positions_upto(x, k) == bit_positions_upto(x, k - 1).push(i));
            assert(Seq::<u64>::empty().push(i) =~= seq![i] + Seq::<u64>::empty());
        } else {
            assert((y >> c) & 1 == (x >> c) & 1);
            let u = bit_positions_upto(y, k - 1);
            if bit_set(x, c) {
                assert(bit_set(y, c));
                assert((seq![i] + u).push(c) =~= seq![i] + u.push(c));
            } else {
                assert(!bit_set(y, c));
            }
        }
    }
}

} // verus!
