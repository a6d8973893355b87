use crate::bits::{
    count_below, lemma_count_below_bounds, lemma_member_bit, lemma_member_empty, member, popcount,
};
use crate::magics::next_subset;
use vstd::prelude::*;

verus! {

/// Two to the power `n`.
pub open spec fn pow2(n: int) -> int
    decreases n,
{
    if n <= 0 {
        1
    } else {
        2 * pow2(n - 1)
    }
}

/// The bits of `x` below bit `n`.
pub open spec fn low_bits(x: u64, n: u64) -> u64 {
    if n >= 64 {
        x
    } else {
        x & (((1u64 << n) - 1) as u64)
    }
}

/// The place of the subset `x` among the subsets of `mask`, counted from 0 in ascending
/// order, where only the squares below `n` are looked at: the number whose binary digits are
/// the bits of `x` at the members of `mask`.
pub open spec fn subset_rank_below(mask: u64, x: u64, n: int) -> int
    decreases n,
{
    if n <= 0 {
        0
    } else if member(mask, n - 1) && member(x, n - 1) {
        subset_rank_below(mask, x, n - 1) + pow2(count_below(mask, n - 1))
    } else {
        subset_rank_below(mask, x, n - 1)
    }
}

/// The place of the subset `x` among the subsets of `mask`, counted from 0 in ascending order.
pub open spec fn subset_rank(mask: u64, x: u64) -> int {
    subset_rank_below(mask, x, 64)
}

proof fn lemma_low_members(x: u64, n: u64, j: u64)
    by (bit_vector)
    requires
        n <= 64,
        j < 64,
    ensures
        (low_bits(x, n) & (1u64 << j) != 0) <==> (x & (1u64 << j) != 0 && j < n),
        low_bits(x, 0) == 0,
        low_bits(x, 64) == x,
{
}

proof fn lemma_low_step(mask: u64, x: u64, n: u64)
    by (bit_vector)
    requires
        x & !mask == 0,
        n < 64,
    ensures
        ({
            let xl = low_bits(x, n);
            let ml = low_bits(mask, n);
            let xh = low_bits(x, (n + 1) as u64);
            let mh = low_bits(mask, (n + 1) as u64);
            let nl = next_subset(ml, xl);
            let nh = next_subset(mh, xh);
            &&& xl & !ml == 0
            &&& xh & !mh == 0
            &&& (mask & (1u64 << n) == 0 ==> xh == xl && mh == ml)
            &&& (mask & (1u64 << n) != 0 && xl != ml ==> xh != mh && low_bits(nh, n) == nl && (nh
                & (1u64 << n) != 0 <==> x & (1u64 << n) != 0))
            &&& (mask & (1u64 << n) != 0 && xl == ml && x & (1u64 << n) == 0 ==> xh != mh && nh
                == 1u64 << n && low_bits(nh, n) == 0)
            &&& (mask & (1u64 << n) != 0 && xl == ml && x & (1u64 << n) != 0 ==> xh == mh)
            &&& (xl == ml ==> nl == 0)
            &&& (xh == mh ==> nh == 0)
        }),
{
}

/// The rank looks at the bits below `n` only.
proof fn lemma_rank_low(mask: u64, x: u64, y: u64, n: int)
    requires
        0 <= n <= 64,
        forall|j: int| 0 <= j < n ==> (member(x, j) <==> member(y, j)),
    ensures
        subset_rank_below(mask, x, n) == subset_rank_below(mask, y, n),
    decreases n,
{
    if n > 0 {
        lemma_rank_low(mask, x, y, n - 1);
    }
}

proof fn lemma_rank_of_low(mask: u64, x: u64, k: int, n: int)
    requires
        0 <= n <= k <= 64,
    ensures
        subset_rank_below(mask, low_bits(x, k as u64), n) == subset_rank_below(mask, x, n),
{
    assert forall|j: int| 0 <= j < n implies (member(low_bits(x, k as u64), j) <==> member(
        x,
        j,
    )) by {
        lemma_low_members(x, k as u64, j as u64);
    }
    lemma_rank_low(mask, low_bits(x, k as u64), x, n);
}

/// A power of two is positive.
pub proof fn lemma_pow2_positive(n: int)
    ensures
        pow2(n) >= 1,
    decreases n,
{
    if n > 0 {
        lemma_pow2_positive(n - 1);
    }
}

/// The rank of a subset is below the number of subsets.
proof fn lemma_rank_bounds(mask: u64, x: u64, n: int)
    requires
        0 <= n <= 64,
    ensures
        0 <= subset_rank_below(mask, x, n) <= pow2(count_below(mask, n)) - 1,
    decreases n,
{
    if n > 0 {
        let c = count_below(mask, n - 1);
        lemma_rank_bounds(mask, x, n - 1);
        lemma_count_below_bounds(mask, n - 1);
        lemma_pow2_positive(c);
        assert(pow2(c + 1) == 2 * pow2(c));
    }
}

proof fn lemma_rank_step(mask: u64, x: u64, n: int)
    requires
        x & !mask == 0,
        0 <= n <= 64,
    ensures
        ({
            let xl = low_bits(x, n as u64);
            let ml = low_bits(mask, n as u64);
            let nl = next_subset(ml, xl);
            &&& xl == ml ==> subset_rank_below(mask, x, n) == pow2(count_below(mask, n)) - 1
            &&& xl != ml ==> subset_rank_below(mask, nl, n) == subset_rank_below(mask, x, n) + 1
        }),
    decreases n,
{
    if n == 0 {
        lemma_low_members(x, 0, 0);
        lemma_low_members(mask, 0, 0);
    } else {
        let k = (n - 1) as u64;
        lemma_rank_step(mask, x, n - 1);
        lemma_low_step(mask, x, k);
        let xl = low_bits(x, k);
        let ml = low_bits(mask, k);
        let xh = low_bits(x, n as u64);
        let mh = low_bits(mask, n as u64);
        let nl = next_subset(ml, xl);
        let nh = next_subset(mh, xh);
        let c = count_below(mask, n - 1);
        lemma_count_below_bounds(mask, n - 1);
        assert(pow2(c + 1) == 2 * pow2(c));
        assert(member(mask, n - 1) <==> mask & (1u64 << k) != 0);
        assert(member(x, n - 1) <==> x & (1u64 << k) != 0);
        assert(member(nh, n - 1) <==> nh & (1u64 << k) != 0);
        let rank_x = subset_rank_below(mask, x, n - 1);
        if !member(mask, n - 1) {
            assert(subset_rank_below(mask, x, n) == rank_x);
            assert(nh == nl);
            assert(subset_rank_below(mask, nh, n) == subset_rank_below(mask, nl, n - 1));
        } else if xl != ml {
            lemma_rank_of_low(mask, nh, n - 1, n - 1);
            assert(subset_rank_below(mask, nh, n - 1) == subset_rank_below(mask, nl, n - 1));
            assert(subset_rank_below(mask, nl, n - 1) == rank_x + 1);
            if member(x, n - 1) {
                assert(subset_rank_below(mask, x, n) == rank_x + pow2(c));
                assert(subset_rank_below(mask, nh, n) == rank_x + 1 + pow2(c));
            } else {
                assert(subset_rank_below(mask, x, n) == rank_x);
                assert(subset_rank_below(mask, nh, n) == rank_x + 1);
            }
        } else if !member(x, n - 1) {
            assert(rank_x == pow2(c) - 1);
            assert(subset_rank_below(mask, x, n) == rank_x);
            lemma_rank_of_low(mask, nh, n - 1, n - 1);
            lemma_rank_zero(mask, n - 1);
            assert(subset_rank_below(mask, nh, n - 1) == 0);
            lemma_member_bit(n - 1);
            assert(member(nh, n - 1));
            assert(subset_rank_below(mask, nh, n) == pow2(c));
        } else {
            assert(rank_x == pow2(c) - 1);
            assert(subset_rank_below(mask, x, n) == rank_x + pow2(c));
        }
    }
}

proof fn lemma_shift_facts(p: u64)
    by (bit_vector)
    requires
        p < 63,
    ensures
        1u64 << ((p + 1) as u64) == 2 * (1u64 << p),
        1u64 << 0u64 == 1,
        u64::MAX >> ((63 - p) as u64) == ((1u64 << ((p + 1) as u64)) - 1) as u64,
{
}

/// For a shift of `64 - p`, with `p` from 1 to 63, the largest shifted value is one less
/// than two to the power `p`.
pub proof fn lemma_pow2_shift(p: int)
    requires
        1 <= p < 64,
    ensures
        (u64::MAX >> ((64 - p) as u64)) == pow2(p) - 1,
        pow2(p) == (1u64 << (p as u64)),
    decreases p,
{
    lemma_shift_facts((p - 1) as u64);
    if p > 1 {
        lemma_pow2_shift(p - 1);
    } else {
        assert(pow2(0) == 1);
    }
}

/// The empty subset comes first.
proof fn lemma_rank_zero(mask: u64, n: int)
    requires
        0 <= n <= 64,
    ensures
        subset_rank_below(mask, 0, n) == 0,
    decreases n,
{
    lemma_member_empty();
    if n > 0 {
        lemma_rank_zero(mask, n - 1);
    }
}

/// The subsets of `mask` number two to the power of its size, and `next_subset` walks them
/// in the order of their ranks: the empty set has rank 0, each step adds one to the rank,
/// and `mask` itself, from which the walk returns to the empty set, has the last rank.
pub proof fn lemma_subset_rank(mask: u64, x: u64)
    requires
        x & !mask == 0,
    ensures
        subset_rank(mask, 0) == 0,
        0 <= subset_rank(mask, x) <= pow2(popcount(mask)) - 1,
        x == mask ==> subset_rank(mask, x) == pow2(popcount(mask)) - 1,
        x != mask ==> subset_rank(mask, next_subset(mask, x)) == subset_rank(mask, x) + 1,
{
    lemma_rank_zero(mask, 64);
    lemma_rank_bounds(mask, x, 64);
    lemma_rank_step(mask, x, 64);
    lemma_low_members(x, 64, 0);
    lemma_low_members(mask, 64, 0);
}

} // verus!
