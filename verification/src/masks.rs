use crate::attacks::{between, slider_sees};
use crate::bits::{
    bit_sum, bitboard_of, lemma_bitboard_of, lemma_bitboard_of_unique, lemma_member_empty,
    lemma_popcount_is_bit_sum, member, popcount,
};
use crate::defs::{file_of, on_board, rank_of, PieceType};
use vstd::prelude::*;

verus! {

/// `t` lies on an outer rank other than the rank of `s`, or on an outer file other than the
/// file of `s`: a piece there cannot shorten a ray from `s`.
pub open spec fn on_far_edge(s: int, t: int) -> bool {
    ||| ((rank_of(t) == 0 || rank_of(t) == 7) && rank_of(t) != rank_of(s))
    ||| ((file_of(t) == 0 || file_of(t) == 7) && file_of(t) != file_of(s))
}

/// `t` is a square whose occupancy decides what a slider of `kind` on `s` attacks: attacked
/// on the empty board, and not the far end of a ray.
pub open spec fn relevant(kind: PieceType, s: int, t: int) -> bool {
    slider_sees(kind, s, 0, t) && !on_far_edge(s, t)
}

/// The mask of the relevant squares of `s`.
pub open spec fn relevant_mask(kind: PieceType, s: int) -> u64 {
    bitboard_of(|t: int| relevant(kind, s, t))
}

/// The members of the relevant mask.
pub proof fn lemma_relevant_mask(kind: PieceType, s: int)
    ensures
        forall|t: int| #[trigger] member(relevant_mask(kind, s), t) <==> relevant(kind, s, t),
{
    lemma_bitboard_of(|t: int| relevant(kind, s, t));
}

/// The relevant mask of a rook on `s`, by shifts: its rank without the outer files and its
/// file without the outer ranks, without `s` itself.
pub open spec fn rook_mask_bits(s: u64) -> u64 {
    (((0xFFu64 << ((8 * (s / 8)) as u64)) & 0x7E7E_7E7E_7E7E_7E7Eu64) | ((0x0101_0101_0101_0101u64
        << (s % 8)) & 0x00FF_FFFF_FFFF_FF00u64)) & !(1u64 << s)
}

/// The diagonal through `s`: the long diagonal moved up or down by whole ranks.
pub open spec fn diagonal_bits(s: u64) -> u64 {
    if s % 8 >= s / 8 {
        0x8040_2010_0804_0201u64 >> ((8 * (s % 8 - s / 8)) as u64)
    } else {
        0x8040_2010_0804_0201u64 << ((8 * (s / 8 - s % 8)) as u64)
    }
}

/// The anti-diagonal through `s`: the long anti-diagonal moved up or down by whole ranks.
pub open spec fn anti_diagonal_bits(s: u64) -> u64 {
    if s % 8 + s / 8 >= 7 {
        0x0102_0408_1020_4080u64 << ((8 * (s % 8 + s / 8 - 7)) as u64)
    } else {
        0x0102_0408_1020_4080u64 >> ((8 * (7 - s % 8 - s / 8)) as u64)
    }
}

/// The relevant mask of a bishop on `s`, by shifts: its two diagonals within the inner 36
/// squares, without `s` itself.
pub open spec fn bishop_mask_bits(s: u64) -> u64 {
    (diagonal_bits(s) | anti_diagonal_bits(s)) & !(1u64 << s) & 0x007E_7E7E_7E7E_7E00u64
}

/// The relevant mask of `kind` on `s` as the shifts give it.
pub open spec fn mask_bits(kind: PieceType, s: int) -> u64 {
    if kind == PieceType::Rook {
        rook_mask_bits(s as u64)
    } else {
        bishop_mask_bits(s as u64)
    }
}

proof fn lemma_rook_mask_members(s: u64, t: u64)
    by (bit_vector)
    requires
        s < 64,
        t < 64,
    ensures
        (rook_mask_bits(s) & (1u64 << t) != 0) <==> (t != s && ((t / 8 == s / 8 && 1 <= t % 8 <= 6)
            || (t % 8 == s % 8 && 1 <= t / 8 <= 6))),
{
}

proof fn lemma_bishop_mask_members(s: u64, t: u64)
    by (bit_vector)
    requires
        s < 64,
        t < 64,
    ensures
        (bishop_mask_bits(s) & (1u64 << t) != 0) <==> (t != s && 1 <= t % 8 <= 6 && 1 <= t / 8 <= 6
            && (t % 8 + s / 8 == s % 8 + t / 8 || t % 8 + t / 8 == s % 8 + s / 8)),
{
}

/// The shifts give the relevant mask.
pub proof fn lemma_mask_bits(kind: PieceType, s: int)
    requires
        on_board(s),
        kind == PieceType::Rook || kind == PieceType::Bishop,
    ensures
        relevant_mask(kind, s) == mask_bits(kind, s),
{
    let bits = mask_bits(kind, s);
    lemma_member_empty();
    assert forall|t: int| 0 <= t < 64 implies (#[trigger] member(bits, t) <==> relevant(
        kind,
        s,
        t,
    )) by {
        lemma_rook_mask_members(s as u64, t as u64);
        lemma_bishop_mask_members(s as u64, t as u64);
        assert(forall|u: int| between(s, t, u) ==> !member(0u64, u));
    }
    lemma_bitboard_of_unique(bits, |t: int| relevant(kind, s, t));
}

proof fn lemma_mask_sizes(s: u64)
    by (bit_vector)
    requires
        s < 64,
    ensures
        10 <= bit_sum(rook_mask_bits(s), 64) <= 12,
        5 <= bit_sum(bishop_mask_bits(s), 64) <= 9,
{
}

/// A relevant mask holds at least 5 squares and at most 12.
pub proof fn lemma_relevant_mask_size(kind: PieceType, s: int)
    requires
        on_board(s),
        kind == PieceType::Rook || kind == PieceType::Bishop,
    ensures
        5 <= popcount(relevant_mask(kind, s)) <= 12,
{
    lemma_mask_bits(kind, s);
    lemma_popcount_is_bit_sum(relevant_mask(kind, s));
    lemma_mask_sizes(s as u64);
}

} // verus!
