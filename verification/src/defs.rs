use crate::bits::{bit, member, Bitboard};
use vstd::prelude::*;

verus! {

/// One of the 64 board cells: `8 * rank + file`, with rank 0 the first rank and file 0 the
/// A-file.
pub type Square = usize;

/// A signed step between square indices: 8 for a rank up, 1 for a file to the right.
pub type Direction = isize;

/// One rank up.
pub const UP: Direction = 8;

/// One rank down.
pub const DOWN: Direction = -8;

/// One file to the left.
pub const LEFT: Direction = -1;

/// One file to the right.
pub const RIGHT: Direction = 1;

/// One rank up and one file to the left.
pub const UP_LEFT: Direction = 7;

/// One rank up and one file to the right.
pub const UP_RIGHT: Direction = 9;

/// One rank down and one file to the left.
pub const DOWN_LEFT: Direction = -9;

/// One rank down and one file to the right.
pub const DOWN_RIGHT: Direction = -7;

/// The first rank.
pub const RANK_1BB: Bitboard = 0x0000_0000_0000_00FF;

/// The eighth rank.
pub const RANK_8BB: Bitboard = 0xFF00_0000_0000_0000;

/// The A-file.
pub const FILE_ABB: Bitboard = 0x0101_0101_0101_0101;

/// The H-file.
pub const FILE_HBB: Bitboard = 0x8080_8080_8080_8080;

/// The six kinds of pieces.
#[derive(Clone, Copy, Debug, PartialEq, Eq, Structural)]
pub enum PieceType {
    Pawn,
    Knight,
    Bishop,
    Rook,
    Queen,
    King,
}

/// The two players.
#[derive(Clone, Copy, Debug, PartialEq, Eq, Structural)]
pub enum Side {
    White,
    Black,
}

/// A piece kind together with the side that owns it.
#[derive(Clone, Copy, Debug, PartialEq, Eq, Structural)]
pub struct Piece {
    pub kind: PieceType,
    pub side: Side,
}

/// `s` is one of the 64 squares.
pub open spec fn on_board(s: int) -> bool {
    0 <= s < 64
}

/// The file of a square, from 0 for the A-file.
pub open spec fn file_of(s: int) -> int {
    s % 8
}

/// The rank of a square, from 0 for the first rank.
pub open spec fn rank_of(s: int) -> int {
    s / 8
}

/// The square on file `file` and rank `rank`.
pub open spec fn square_at(file: int, rank: int) -> int {
    8 * rank + file
}

/// How far `a` and `b` are apart.
pub open spec fn abs_diff(a: int, b: int) -> int {
    if a < b {
        b - a
    } else {
        a - b
    }
}

/// Number of king steps between two squares: the larger of the file and the rank difference.
pub open spec fn distance_spec(a: int, b: int) -> int {
    let df = abs_diff(file_of(a), file_of(b));
    let dr = abs_diff(rank_of(a), rank_of(b));
    if df < dr {
        dr
    } else {
        df
    }
}

/// The kind of a piece.
pub fn type_of_piece(piece: Piece) -> (kind: PieceType)
    ensures
        kind == piece.kind,
{
    piece.kind
}

/// The side that owns a piece.
pub fn color_of_piece(piece: Piece) -> (side: Side)
    ensures
        side == piece.side,
{
    piece.side
}

/// The square on file `file` and rank `rank`.
pub fn square_of(file: usize, rank: usize) -> (square: Square)
    requires
        file < 8,
        rank < 8,
    ensures
        square == square_at(file as int, rank as int),
        square < 64,
{
    rank * 8 + file
}

/// Number of king steps between two squares.
pub fn distance(a: Square, b: Square) -> (d: usize)
    requires
        a < 64,
        b < 64,
    ensures
        d == distance_spec(a as int, b as int),
{
    let fa: usize = a % 8;
    let fb: usize = b % 8;
    let ra: usize = a / 8;
    let rb: usize = b / 8;
    let df: usize = if fa < fb {
        fb - fa
    } else {
        fa - fb
    };
    let dr: usize = if ra < rb {
        rb - ra
    } else {
        ra - rb
    };
    if df < dr {
        dr
    } else {
        df
    }
}

/// The bitboard that holds `square` alone.
pub fn square_bb(square: Square) -> (bb: Bitboard)
    requires
        square < 64,
    ensures
        bb == bit(square as int),
{
    1u64 << square
}

proof fn lemma_rank_bits(r: u64, t: u64)
    by (bit_vector)
    requires
        r < 8,
        t < 64,
    ensures
        ((0xFFu64 << ((8 * r) as u64)) & (1u64 << t) != 0) <==> t / 8 == r,
{
}

proof fn lemma_file_bits(f: u64, t: u64)
    by (bit_vector)
    requires
        f < 8,
        t < 64,
    ensures
        ((0x0101_0101_0101_0101u64 << f) & (1u64 << t) != 0) <==> t % 8 == f,
{
}

/// The bitboard of the whole rank that holds `square`.
pub fn rank_bb(square: Square) -> (bb: Bitboard)
    requires
        square < 64,
    ensures
        forall|t: int| #[trigger]
            member(bb, t) <==> on_board(t) && rank_of(t) == rank_of(square as int),
{
    let r: usize = square / 8;
    let bb: u64 = RANK_1BB << (8 * r);
    proof {
        assert forall|t: int| #[trigger] member(bb, t) <==> on_board(t) && rank_of(t) == rank_of(
            square as int,
        ) by {
            if 0 <= t < 64 {
                lemma_rank_bits(r as u64, t as u64);
            }
        }
    }
    bb
}

/// The bitboard of the whole file that holds `square`.
pub fn file_bb(square: Square) -> (bb: Bitboard)
    requires
        square < 64,
    ensures
        forall|t: int| #[trigger]
            member(bb, t) <==> on_board(t) && file_of(t) == file_of(square as int),
{
    let f: usize = square % 8;
    let bb: u64 = FILE_ABB << f;
    proof {
        assert forall|t: int| #[trigger] member(bb, t) <==> on_board(t) && file_of(t) == file_of(
            square as int,
        ) by {
            if 0 <= t < 64 {
                lemma_file_bits(f as u64, t as u64);
            }
        }
    }
    bb
}

/// The members of the two outer ranks and of the two outer files.
pub proof fn lemma_outer_lines(t: u64)
    by (bit_vector)
    requires
        t < 64,
    ensures
        ((0x0000_0000_0000_00FFu64 | 0xFF00_0000_0000_0000u64) & (1u64 << t) != 0) <==> (t / 8 == 0
            || t / 8 == 7),
        ((0x0101_0101_0101_0101u64 | 0x8080_8080_8080_8080u64) & (1u64 << t) != 0) <==> (t % 8 == 0
            || t % 8 == 7),
{
}

} // verus!
