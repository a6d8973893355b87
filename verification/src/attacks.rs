use crate::bits::{bit, bitboard_of, lemma_bitboard_of, member};
use crate::defs::{abs_diff, distance_spec, file_of, on_board, rank_of, Piece, PieceType, Side};
use vstd::prelude::*;

verus! {

/// The one-square bitboard of `square + step` where that square is on the board and at most
/// two king steps away from `square`; the empty bitboard otherwise.
pub open spec fn safe_destination_spec(square: int, step: int) -> u64 {
    let to = square + step;
    if on_board(to) && distance_spec(square, to) <= 2 {
        bit(to)
    } else {
        0
    }
}

/// The eight one-step directions.
pub open spec fn is_direction(d: int) -> bool {
    d == 8 || d == -8 || d == 1 || d == -1 || d == 9 || d == 7 || d == -7 || d == -9
}

/// The change of file that one step in direction `d` makes.
pub open spec fn dir_file(d: int) -> int {
    if d == 1 || d == 9 || d == -7 {
        1
    } else if d == -1 || d == 7 || d == -9 {
        -1
    } else {
        0
    }
}

/// The change of rank that one step in direction `d` makes.
pub open spec fn dir_rank(d: int) -> int {
    if d == 8 || d == 9 || d == 7 {
        1
    } else if d == -8 || d == -9 || d == -7 {
        -1
    } else {
        0
    }
}

/// `k` steps of size `unit`, where `unit` is -1, 0 or 1.
pub open spec fn scaled(unit: int, k: int) -> int {
    if unit == 1 {
        k
    } else if unit == -1 {
        -k
    } else {
        0
    }
}

/// `t` lies on the ray that leaves `s` in direction `d`, at least one step away.
pub open spec fn on_ray(s: int, d: int, t: int) -> bool {
    let k = distance_spec(s, t);
    &&& on_board(t)
    &&& k >= 1
    &&& file_of(t) == file_of(s) + scaled(dir_file(d), k)
    &&& rank_of(t) == rank_of(s) + scaled(dir_rank(d), k)
}

/// `a` and `b` share a rank or a file.
pub open spec fn same_rank_or_file(a: int, b: int) -> bool {
    rank_of(a) == rank_of(b) || file_of(a) == file_of(b)
}

/// `a` and `b` share a diagonal or an anti-diagonal.
pub open spec fn same_diagonal(a: int, b: int) -> bool {
    abs_diff(file_of(a), file_of(b)) == abs_diff(rank_of(a), rank_of(b))
}

/// The three squares lie on one rank, one file, one diagonal or one anti-diagonal.
pub open spec fn collinear(a: int, b: int, c: int) -> bool {
    ||| (rank_of(a) == rank_of(b) && rank_of(b) == rank_of(c))
    ||| (file_of(a) == file_of(b) && file_of(b) == file_of(c))
    ||| (file_of(a) - rank_of(a) == file_of(b) - rank_of(b) && file_of(b) - rank_of(b) == file_of(
        c,
    ) - rank_of(c))
    ||| (file_of(a) + rank_of(a) == file_of(b) + rank_of(b) && file_of(b) + rank_of(b) == file_of(
        c,
    ) + rank_of(c))
}

/// The three squares lie on one line of `kind`: a rank or a file for the rook, a diagonal or
/// an anti-diagonal for the bishop.
pub open spec fn collinear_by(kind: PieceType, a: int, b: int, c: int) -> bool {
    match kind {
        PieceType::Rook => {
            ||| (rank_of(a) == rank_of(b) && rank_of(b) == rank_of(c))
            ||| (file_of(a) == file_of(b) && file_of(b) == file_of(c))
        },
        PieceType::Bishop => {
            ||| (file_of(a) - rank_of(a) == file_of(b) - rank_of(b) && file_of(b) - rank_of(b)
                == file_of(c) - rank_of(c))
            ||| (file_of(a) + rank_of(a) == file_of(b) + rank_of(b) && file_of(b) + rank_of(b)
                == file_of(c) + rank_of(c))
        },
        _ => false,
    }
}

/// `u` lies strictly between `a` and `b` on a line through both.
pub open spec fn between(a: int, b: int, u: int) -> bool {
    &&& on_board(u)
    &&& collinear(a, b, u)
    &&& u != a
    &&& u != b
    &&& abs_diff(file_of(a), file_of(u)) + abs_diff(file_of(u), file_of(b)) == abs_diff(
        file_of(a),
        file_of(b),
    )
    &&& abs_diff(rank_of(a), rank_of(u)) + abs_diff(rank_of(u), rank_of(b)) == abs_diff(
        rank_of(a),
        rank_of(b),
    )
}

/// No square strictly between `s` and `t` is occupied.
pub open spec fn clear_between(s: int, t: int, occupied: u64) -> bool {
    forall|u: int| between(s, t, u) ==> !member(occupied, u)
}

/// `t` is reached from `s` along direction `d` before or at the first occupied square.
pub open spec fn ray_sees(s: int, d: int, occupied: u64, t: int) -> bool {
    on_ray(s, d, t) && clear_between(s, t, occupied)
}

/// A sliding piece of kind `kind` (rook or bishop) on `s` attacks `t`: the two squares differ,
/// share a line of that kind, and nothing stands strictly between them. An occupied `t` is
/// attacked too.
pub open spec fn slider_sees(kind: PieceType, s: int, occupied: u64, t: int) -> bool {
    &&& on_board(t)
    &&& t != s
    &&& match kind {
        PieceType::Rook => same_rank_or_file(s, t),
        PieceType::Bishop => same_diagonal(s, t),
        _ => false,
    }
    &&& clear_between(s, t, occupied)
}

/// The attack set of a rook or a bishop on `s` with the given occupancy.
pub open spec fn sliding_attack_spec(kind: PieceType, s: int, occupied: u64) -> u64 {
    bitboard_of(|t: int| slider_sees(kind, s, occupied, t))
}

/// A king on `s` attacks `t`: one king step apart.
pub open spec fn king_sees(s: int, t: int) -> bool {
    on_board(t) && distance_spec(s, t) == 1
}

/// A knight on `s` attacks `t`: one file and two ranks apart, or two files and one rank.
pub open spec fn knight_sees(s: int, t: int) -> bool {
    let df = abs_diff(file_of(s), file_of(t));
    let dr = abs_diff(rank_of(s), rank_of(t));
    on_board(t) && ((df == 1 && dr == 2) || (df == 2 && dr == 1))
}

/// A pawn of `side` on `s` attacks `t`: one file to either side, one rank forward, where
/// forward is toward higher ranks for White and toward lower ranks for Black.
pub open spec fn pawn_sees(side: Side, s: int, t: int) -> bool {
    &&& on_board(t)
    &&& abs_diff(file_of(s), file_of(t)) == 1
    &&& match side {
        Side::White => rank_of(t) == rank_of(s) + 1,
        Side::Black => rank_of(t) == rank_of(s) - 1,
    }
}

/// The attack set of a king on `s`.
pub open spec fn king_attack_spec(s: int) -> u64 {
    bitboard_of(|t: int| king_sees(s, t))
}

/// The attack set of a knight on `s`.
pub open spec fn knight_attack_spec(s: int) -> u64 {
    bitboard_of(|t: int| knight_sees(s, t))
}

/// The attack set of a pawn of `side` on `s`.
pub open spec fn pawn_attack_spec(side: Side, s: int) -> u64 {
    bitboard_of(|t: int| pawn_sees(side, s, t))
}

/// The squares in line with `a` and `b`: where the two differ, the whole rank, file or
/// diagonal through both, or nothing if they share none; where they are one square, every
/// square that shares a rank, a file or a diagonal with it.
pub open spec fn line_spec(a: int, b: int) -> u64 {
    bitboard_of(|c: int| collinear(a, b, c))
}

/// The squares that `piece` on `s` attacks when the squares of `occupied` hold pieces. The
/// occupancy matters to the sliders only; the queen moves as rook and as bishop.
pub open spec fn attack_set(piece: Piece, s: int, occupied: u64) -> u64 {
    match piece.kind {
        PieceType::Pawn => pawn_attack_spec(piece.side, s),
        PieceType::Knight => knight_attack_spec(s),
        PieceType::King => king_attack_spec(s),
        PieceType::Bishop => sliding_attack_spec(PieceType::Bishop, s, occupied),
        PieceType::Rook => sliding_attack_spec(PieceType::Rook, s, occupied),
        PieceType::Queen => sliding_attack_spec(PieceType::Bishop, s, occupied)
            | sliding_attack_spec(PieceType::Rook, s, occupied),
    }
}

/// The union of the safe destinations of the first `n` steps of `steps`.
pub open spec fn steps_attack_spec(s: int, steps: Seq<isize>, n: int) -> u64
    decreases n,
{
    if n <= 0 {
        0
    } else {
        steps_attack_spec(s, steps, n - 1) | safe_destination_spec(s, steps[n - 1] as int)
    }
}

/// The members of a slider's attack set are the squares that it sees.
pub proof fn lemma_sliding_members(kind: PieceType, s: int, occupied: u64)
    ensures
        forall|t: int| #[trigger]
            member(sliding_attack_spec(kind, s, occupied), t) <==> slider_sees(
                kind,
                s,
                occupied,
                t,
            ),
{
    lemma_bitboard_of(|t: int| slider_sees(kind, s, occupied, t));
}

/// The members of the attack sets of king, knight and pawns are the squares that they see.
pub proof fn lemma_fixed_members(s: int)
    ensures
        forall|t: int| #[trigger] member(king_attack_spec(s), t) <==> king_sees(s, t),
        forall|t: int| #[trigger] member(knight_attack_spec(s), t) <==> knight_sees(s, t),
        forall|side: Side, t: int| #[trigger]
            member(pawn_attack_spec(side, s), t) <==> pawn_sees(side, s, t),
{
    lemma_bitboard_of(|t: int| king_sees(s, t));
    lemma_bitboard_of(|t: int| knight_sees(s, t));
    assert forall|side: Side, t: int| #[trigger]
        member(pawn_attack_spec(side, s), t) <==> pawn_sees(side, s, t) by {
        lemma_bitboard_of(|t: int| pawn_sees(side, s, t));
    }
}

/// The members of the line through `a` and `b` are the squares in line with both.
pub proof fn lemma_line_members(a: int, b: int)
    ensures
        forall|c: int| #[trigger]
            member(line_spec(a, b), c) <==> on_board(c) && collinear(a, b, c),
{
    lemma_bitboard_of(|c: int| collinear(a, b, c));
}

/// What `safe_destination_spec` gives for a step of at most two files and two ranks: the
/// target square where the move stays on the board, nothing where it leaves it.
pub proof fn lemma_safe_destination(s: int, df: int, dr: int)
    requires
        on_board(s),
        -2 <= df <= 2,
        -2 <= dr <= 2,
        df != 0 || dr != 0,
    ensures
        ({
            let tf = file_of(s) + df;
            let tr = rank_of(s) + dr;
            let dest = safe_destination_spec(s, 8 * dr + df);
            if 0 <= tf < 8 && 0 <= tr < 8 {
                let t = s + 8 * dr + df;
                on_board(t) && file_of(t) == tf && rank_of(t) == tr && dest == bit(t) && dest != 0
            } else {
                dest == 0
            }
        }),
{
    let t = s + 8 * dr + df;
    if on_board(t) {
        crate::bits::lemma_member_bit(t);
    }
}

/// The members of a safe destination: the one square `df` files and `dr` ranks from `s`, if
/// the board has it.
pub proof fn lemma_safe_destination_member(s: int, df: int, dr: int, t: int)
    requires
        on_board(s),
        -2 <= df <= 2,
        -2 <= dr <= 2,
        df != 0 || dr != 0,
    ensures
        member(safe_destination_spec(s, 8 * dr + df), t) <==> on_board(t) && file_of(t) == file_of(
            s,
        ) + df && rank_of(t) == rank_of(s) + dr,
{
    lemma_safe_destination(s, df, dr);
    crate::bits::lemma_member_empty();
    let to = s + 8 * dr + df;
    if on_board(to) {
        crate::bits::lemma_member_bit(to);
    }
}

/// How the squares of a ray lie: what lies between the ray's start and one of its squares is
/// on the ray and nearer, what is on the ray and nearer lies between, and each distance is
/// met by one square only.
pub proof fn lemma_ray_geometry(s: int, d: int)
    requires
        on_board(s),
        is_direction(d),
    ensures
        forall|t: int, u: int| #[trigger]
            between(s, t, u) && on_ray(s, d, t) ==> on_ray(s, d, u) && distance_spec(s, u)
                < distance_spec(s, t),
        forall|t: int, u: int|
            on_ray(s, d, t) && #[trigger] on_ray(s, d, u) && distance_spec(s, u) < distance_spec(
                s,
                t,
            ) ==> #[trigger] between(s, t, u),
        forall|t: int, u: int|
            #[trigger] on_ray(s, d, t) && #[trigger] on_ray(s, d, u) && distance_spec(s, u)
                == distance_spec(s, t) ==> t == u,
{
}

/// The four directions in which a rook or a bishop slides.
pub open spec fn slider_directions(kind: PieceType) -> Seq<int> {
    match kind {
        PieceType::Rook => seq![8int, -8int, -1int, 1int],
        _ => seq![7int, 9int, -9int, -7int],
    }
}

/// A slider sees a square exactly when one of its four rays does.
pub proof fn lemma_slider_rays(kind: PieceType, s: int, occupied: u64, t: int)
    requires
        on_board(s),
        kind == PieceType::Rook || kind == PieceType::Bishop,
    ensures
        slider_sees(kind, s, occupied, t) <==> (exists|i: int|
            0 <= i < 4 && ray_sees(s, #[trigger] slider_directions(kind)[i], occupied, t)),
{
    let dirs = slider_directions(kind);
    if slider_sees(kind, s, occupied, t) {
        assert(on_ray(s, dirs[0], t) || on_ray(s, dirs[1], t) || on_ray(s, dirs[2], t) || on_ray(
            s,
            dirs[3],
            t,
        ));
        assert(ray_sees(s, dirs[0], occupied, t) || ray_sees(s, dirs[1], occupied, t) || ray_sees(
            s,
            dirs[2],
            occupied,
            t,
        ) || ray_sees(s, dirs[3], occupied, t));
    }
    if exists|i: int|
        0 <= i < 4 && ray_sees(s, #[trigger] slider_directions(kind)[i], occupied, t) {
        let i = choose|i: int|
            0 <= i < 4 && ray_sees(s, #[trigger] slider_directions(kind)[i], occupied, t);
        assert(on_ray(s, dirs[i], t));
        assert(i == 0 || i == 1 || i == 2 || i == 3);
    }
}

} // verus!
