use vstd::prelude::*;

verus! {

/// A set of board squares: bit `i` is set exactly when square `i` is a member.
pub type Bitboard = u64;

/// The empty set of squares.
pub const EMPTY: Bitboard = 0;

/// The bitboard that holds square `s` alone (for `0 <= s < 64`).
pub open spec fn bit(s: int) -> u64 {
    1u64 << (s as u64)
}

/// Membership: square `s` is on the board and its bit is set in `bb`.
pub open spec fn member(bb: u64, s: int) -> bool {
    0 <= s < 64 && bb & bit(s) != 0
}

proof fn lemma_bit_ops(a: u64, b: u64, i: u64, j: u64)
    by (bit_vector)
    requires
        i < 64,
        j < 64,
    ensures
        ((1u64 << i) & (1u64 << j) != 0) <==> i == j,
        1u64 << i != 0,
        0u64 & (1u64 << j) == 0,
        ((a | b) & (1u64 << j) != 0) <==> (a & (1u64 << j) != 0 || b & (1u64 << j) != 0),
        ((a & b) & (1u64 << j) != 0) <==> (a & (1u64 << j) != 0 && b & (1u64 << j) != 0),
        ((!a) & (1u64 << j) != 0) <==> a & (1u64 << j) == 0,
        (a & (1u64 << j) != 0) <==> (a >> j) & 1 == 1,
        (a >> j) & 1 == 0 || (a >> j) & 1 == 1,
{
}

/// The empty bitboard has no member.
pub proof fn lemma_member_empty()
    ensures
        forall|t: int| !member(0, t),
{
    assert forall|t: int| !member(0, t) by {
        if 0 <= t < 64 {
            lemma_bit_ops(0, 0, 0, t as u64);
        }
    }
}

/// A one-square bitboard has that square as its only member.
pub proof fn lemma_member_bit(s: int)
    requires
        0 <= s < 64,
    ensures
        bit(s) != 0,
        forall|t: int| #[trigger] member(bit(s), t) <==> t == s,
{
    lemma_bit_ops(0, 0, s as u64, 0);
    assert forall|t: int| #[trigger] member(bit(s), t) <==> t == s by {
        if 0 <= t < 64 {
            lemma_bit_ops(0, 0, s as u64, t as u64);
        }
    }
}

/// Union, intersection and complement act on members as on sets.
pub proof fn lemma_member_ops(a: u64, b: u64)
    ensures
        forall|t: int| #[trigger] member(a | b, t) <==> member(a, t) || member(b, t),
        forall|t: int| #[trigger] member(a & b, t) <==> member(a, t) && member(b, t),
        forall|t: int| 0 <= t < 64 ==> (#[trigger] member(!a, t) <==> !member(a, t)),
{
    assert forall|t: int| 0 <= t < 64 implies (#[trigger] member(a | b, t) <==> member(a, t)
        || member(b, t)) by {
        lemma_bit_ops(a, b, 0, t as u64);
    }
    assert forall|t: int| 0 <= t < 64 implies (#[trigger] member(a & b, t) <==> member(a, t)
        && member(b, t)) by {
        lemma_bit_ops(a, b, 0, t as u64);
    }
    assert forall|t: int| 0 <= t < 64 implies (#[trigger] member(!a, t) <==> !member(a, t)) by {
        lemma_bit_ops(a, b, 0, t as u64);
    }
}

/// A square is a member exactly when its bit, shifted down to the lowest place, is 1.
pub proof fn lemma_member_shift(a: u64, j: int)
    requires
        0 <= j < 64,
    ensures
        member(a, j) <==> (a >> (j as u64)) & 1 == 1,
        !member(a, j) <==> (a >> (j as u64)) & 1 == 0,
{
    lemma_bit_ops(a, 0, 0, j as u64);
}

proof fn lemma_shift_step(a: u64, n: u64)
    by (bit_vector)
    requires
        n < 63,
    ensures
        a >> n == ((a >> ((n + 1) as u64)) << 1) | ((a >> n) & 1),
        (a >> 63u64) == (a >> 63u64) & 1,
        a >> 0u64 == a,
{
}

proof fn lemma_same_high(a: u64, b: u64, n: int)
    requires
        0 <= n < 64,
        forall|t: int| n <= t < 64 ==> (member(a, t) <==> member(b, t)),
    ensures
        a >> (n as u64) == b >> (n as u64),
    decreases 64 - n,
{
    lemma_bit_ops(a, 0, 0, n as u64);
    lemma_bit_ops(b, 0, 0, n as u64);
    assert(member(a, n) <==> member(b, n));
    if n == 63 {
        lemma_shift_step(a, 0);
        lemma_shift_step(b, 0);
    } else {
        lemma_same_high(a, b, n + 1);
        lemma_shift_step(a, n as u64);
        lemma_shift_step(b, n as u64);
    }
}

/// Two bitboards with the same members are the same value.
pub proof fn lemma_bitboard_ext(a: u64, b: u64)
    requires
        forall|t: int| 0 <= t < 64 ==> (#[trigger] member(a, t) <==> member(b, t)),
    ensures
        a == b,
{
    lemma_same_high(a, b, 0);
    lemma_shift_step(a, 0);
    lemma_shift_step(b, 0);
}

/// The bitboard of the squares below `n` that satisfy `f`.
pub open spec fn bitboard_below(f: spec_fn(int) -> bool, n: int) -> u64
    decreases n,
{
    if n <= 0 {
        0
    } else if f(n - 1) {
        bitboard_below(f, n - 1) | bit(n - 1)
    } else {
        bitboard_below(f, n - 1)
    }
}

/// The bitboard whose members are exactly the squares of the board that satisfy `f`.
pub open spec fn bitboard_of(f: spec_fn(int) -> bool) -> u64 {
    bitboard_below(f, 64)
}

proof fn lemma_bitboard_below(f: spec_fn(int) -> bool, n: int)
    requires
        0 <= n <= 64,
    ensures
        forall|t: int| #[trigger] member(bitboard_below(f, n), t) <==> 0 <= t < n && f(t),
    decreases n,
{
    if n == 0 {
        lemma_member_empty();
    } else {
        let prev = bitboard_below(f, n - 1);
        lemma_bitboard_below(f, n - 1);
        lemma_member_bit(n - 1);
        lemma_member_ops(prev, bit(n - 1));
        assert forall|t: int| #[trigger]
            member(bitboard_below(f, n), t) <==> 0 <= t < n && f(t) by {
            assert(member(prev, t) <==> 0 <= t < n - 1 && f(t));
            assert(member(bit(n - 1), t) <==> t == n - 1);
            assert(member(prev | bit(n - 1), t) <==> member(prev, t) || member(bit(n - 1), t));
        }
    }
}

/// The members of `bitboard_of(f)` are the squares that satisfy `f`.
pub proof fn lemma_bitboard_of(f: spec_fn(int) -> bool)
    ensures
        forall|t: int| #[trigger] member(bitboard_of(f), t) <==> 0 <= t < 64 && f(t),
{
    lemma_bitboard_below(f, 64);
}

/// A bitboard with the members that `f` describes is `bitboard_of(f)`.
pub proof fn lemma_bitboard_of_unique(bb: u64, f: spec_fn(int) -> bool)
    requires
        forall|t: int| 0 <= t < 64 ==> (#[trigger] member(bb, t) <==> f(t)),
    ensures
        bb == bitboard_of(f),
{
    lemma_bitboard_of(f);
    lemma_bitboard_ext(bb, bitboard_of(f));
}

/// The members of a union of eight bitboards.
pub proof fn lemma_union8(a: u64, b: u64, c: u64, d: u64, e: u64, f: u64, g: u64, h: u64)
    ensures
        forall|t: int| #[trigger]
            member(0 | a | b | c | d | e | f | g | h, t) <==> member(a, t) || member(b, t)
                || member(c, t) || member(d, t) || member(e, t) || member(f, t) || member(g, t)
                || member(h, t),
{
    lemma_member_empty();
    lemma_member_ops(0, a);
    lemma_member_ops(0 | a, b);
    lemma_member_ops(0 | a | b, c);
    lemma_member_ops(0 | a | b | c, d);
    lemma_member_ops(0 | a | b | c | d, e);
    lemma_member_ops(0 | a | b | c | d | e, f);
    lemma_member_ops(0 | a | b | c | d | e | f, g);
    lemma_member_ops(0 | a | b | c | d | e | f | g, h);
}

/// The number of members of `bb` among the squares below `n`.
pub open spec fn count_below(bb: u64, n: int) -> int
    decreases n,
{
    if n <= 0 {
        0
    } else if member(bb, n - 1) {
        count_below(bb, n - 1) + 1
    } else {
        count_below(bb, n - 1)
    }
}

/// The number of members of `bb`.
pub open spec fn popcount(bb: u64) -> int {
    count_below(bb, 64)
}

/// `u64::count_ones` of std: the number of one bits in the value, which is the number of
/// squares that the bitboard holds.
pub assume_specification[ u64::count_ones ](bb: u64) -> (n: u32)
    ensures
        n == popcount(bb),
;

/// No more squares are counted than are looked at.
pub proof fn lemma_count_below_bounds(bb: u64, n: int)
    requires
        0 <= n <= 64,
    ensures
        0 <= count_below(bb, n) <= n,
    decreases n,
{
    if n > 0 {
        lemma_count_below_bounds(bb, n - 1);
    }
}

/// The number of one bits among the lowest `n` bits of `m`.
pub open spec fn bit_sum(m: u64, n: u64) -> u64
    decreases n,
{
    if n == 0 {
        0
    } else {
        (bit_sum(m, (n - 1) as u64) + ((m >> ((n - 1) as u64)) & 1)) as u64
    }
}

proof fn lemma_bit_sum(m: u64, n: int)
    requires
        0 <= n <= 64,
    ensures
        bit_sum(m, n as u64) == count_below(m, n),
    decreases n,
{
    if n > 0 {
        lemma_bit_sum(m, n - 1);
        lemma_count_below_bounds(m, n - 1);
        lemma_member_shift(m, n - 1);
    }
}

/// `bit_sum` over all 64 bits counts the members.
pub proof fn lemma_popcount_is_bit_sum(m: u64)
    ensures
        popcount(m) == bit_sum(m, 64),
{
    lemma_bit_sum(m, 64);
}

} // verus!
