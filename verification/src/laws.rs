use crate::attacks::{
    attack_set, between, clear_between, collinear, is_direction, lemma_fixed_members,
    lemma_line_members, lemma_sliding_members, line_spec, on_ray, pawn_sees, same_diagonal,
    same_rank_or_file, slider_directions, slider_sees, sliding_attack_spec,
};
use crate::bitboards::Bitboards;
use crate::bits::{lemma_bitboard_ext, lemma_member_empty, lemma_member_ops, member, popcount};
use crate::defs::{distance_spec, on_board, rank_of, Piece, PieceType, Side};
use crate::subsets::pow2;
use crate::tables::subsets_before;
use vstd::prelude::*;

verus! {

/// Construction is deterministic: two sets of tables that construction gave hold the same
/// values throughout, and answer every query alike.
pub proof fn law_determinism(x: Bitboards, y: Bitboards)
    requires
        x.wf(),
        y.wf(),
    ensures
        x.king_table() == y.king_table(),
        x.knight_table() == y.knight_table(),
        forall|side: Side| x.pawn_table(side) == y.pawn_table(side),
        forall|kind: PieceType|
            kind == PieceType::Rook || kind == PieceType::Bishop ==> x.table(kind) == y.table(kind)
                && x.magics(kind) == y.magics(kind),
        forall|a: int, b: int| 0 <= a < 64 && 0 <= b < 64 ==> x.line(a, b) == y.line(a, b),
        forall|piece: Piece, s: int, occupied: u64|
            0 <= s < 64 ==> x.attack_spec(piece, s, occupied) == y.attack_spec(piece, s, occupied),
{
    assert(x.king_table() =~= y.king_table());
    assert(x.knight_table() =~= y.knight_table());
    assert forall|side: Side| x.pawn_table(side) == y.pawn_table(side) by {
        assert(side == Side::White || side == Side::Black);
        assert(x.pawn_table(side) =~= y.pawn_table(side));
    }
}

/// The tables answer every query with the attack set itself: the magic index of every
/// occupancy of every square leads to the slot that holds the attack set of that occupancy.
pub proof fn law_exact_tables(tables: Bitboards, piece: Piece, s: int, occupied: u64)
    requires
        tables.wf(),
        on_board(s),
    ensures
        tables.lookup(PieceType::Rook, s, occupied) == sliding_attack_spec(
            PieceType::Rook,
            s,
            occupied,
        ),
        tables.lookup(PieceType::Bishop, s, occupied) == sliding_attack_spec(
            PieceType::Bishop,
            s,
            occupied,
        ),
        tables.attack_spec(piece, s, occupied) == attack_set(piece, s, occupied),
{
    assert(piece.side == Side::White || piece.side == Side::Black);
    tables.lemma_sliders(PieceType::Rook);
    tables.lemma_sliders(PieceType::Bishop);
    let rook_magic = tables.magics(PieceType::Rook)[s];
    let bishop_magic = tables.magics(PieceType::Bishop)[s];
    assert(0 <= rook_magic.index_spec(occupied) < tables.table(PieceType::Rook).len());
    assert(0 <= bishop_magic.index_spec(occupied) < tables.table(PieceType::Bishop).len());
}

/// The squares share each table without gaps: a square's entries start where the entries of
/// the squares before it end, every occupancy of the square leads into the stretch of its
/// own entries, which is as long as the number of subsets of its mask, and the table ends
/// with the entries of the last square.
pub proof fn law_packed_tables(tables: Bitboards, kind: PieceType, s: int, occupied: u64)
    requires
        tables.wf(),
        kind == PieceType::Rook || kind == PieceType::Bishop,
        on_board(s),
    ensures
        tables.magics(kind)[s].offset == subsets_before(kind, s),
        subsets_before(kind, s) <= tables.magics(kind)[s].index_spec(occupied) < subsets_before(
            kind,
            s + 1,
        ),
        subsets_before(kind, s + 1) == subsets_before(kind, s) + pow2(
            popcount(tables.magics(kind)[s].mask),
        ),
        tables.table(kind).len() == subsets_before(kind, 64),
{
    tables.lemma_sliders(kind);
    let magic = tables.magics(kind)[s];
    assert(subsets_before(kind, s) <= magic.index_spec(occupied) < subsets_before(kind, s + 1));
}

/// On the empty board the tables give a rook or a bishop the whole of its four rays, up to
/// the board's edge: each square other than its own that shares a rank or a file with it
/// (rook), or a diagonal (bishop).
pub proof fn law_open_board(tables: Bitboards, kind: PieceType, side: Side, s: int)
    requires
        tables.wf(),
        kind == PieceType::Rook || kind == PieceType::Bishop,
        on_board(s),
    ensures
        forall|t: int| #[trigger]
            member(tables.attack_spec(Piece { kind, side }, s, 0), t) <==> (exists|i: int|
                0 <= i < 4 && on_ray(s, #[trigger] slider_directions(kind)[i], t)),
        forall|t: int| #[trigger]
            member(tables.attack_spec(Piece { kind, side }, s, 0), t) <==> slider_sees(
                kind,
                s,
                0,
                t,
            ),
{
    law_exact_tables(tables, Piece { kind, side }, s, 0);
    lemma_sliding_members(kind, s, 0);
    lemma_member_empty();
    let dirs = slider_directions(kind);
    assert forall|t: int| #[trigger]
        member(sliding_attack_spec(kind, s, 0), t) <==> (exists|i: int|
            0 <= i < 4 && on_ray(s, #[trigger] slider_directions(kind)[i], t)) by {
        assert(clear_between(s, t, 0));
        if slider_sees(kind, s, 0, t) {
            assert(on_ray(s, dirs[0], t) || on_ray(s, dirs[1], t) || on_ray(s, dirs[2], t)
                || on_ray(s, dirs[3], t));
        }
        if exists|i: int| 0 <= i < 4 && on_ray(s, #[trigger] slider_directions(kind)[i], t) {
            let i = choose|i: int|
                0 <= i < 4 && on_ray(s, #[trigger] slider_directions(kind)[i], t);
            assert(i == 0 || i == 1 || i == 2 || i == 3);
            assert(slider_sees(kind, s, 0, t));
        }
    }
}

/// On the empty board the tables give the queen the whole of her eight rays: each square
/// other than her own that shares a rank, a file or a diagonal with it.
pub proof fn law_open_board_queen(tables: Bitboards, side: Side, s: int)
    requires
        tables.wf(),
        on_board(s),
    ensures
        forall|t: int| #[trigger]
            member(tables.attack_spec(Piece { kind: PieceType::Queen, side }, s, 0), t) <==> (
            exists|d: int| is_direction(d) && #[trigger] on_ray(s, d, t)),
        forall|t: int| #[trigger]
            member(tables.attack_spec(Piece { kind: PieceType::Queen, side }, s, 0), t) <==> (
            on_board(t) && t != s && (same_rank_or_file(s, t) || same_diagonal(s, t))),
{
    let queen = Piece { kind: PieceType::Queen, side };
    let rook = sliding_attack_spec(PieceType::Rook, s, 0);
    let bishop = sliding_attack_spec(PieceType::Bishop, s, 0);
    law_exact_tables(tables, queen, s, 0);
    lemma_sliding_members(PieceType::Rook, s, 0);
    lemma_sliding_members(PieceType::Bishop, s, 0);
    lemma_member_ops(bishop, rook);
    lemma_member_empty();
    assert forall|t: int| #[trigger]
        member(bishop | rook, t) <==> (exists|d: int|
            is_direction(d) && #[trigger] on_ray(s, d, t)) by {
        assert(clear_between(s, t, 0));
        if member(bishop | rook, t) {
            assert(on_ray(s, 8, t) || on_ray(s, -8, t) || on_ray(s, 1, t) || on_ray(s, -1, t)
                || on_ray(s, 9, t) || on_ray(s, 7, t) || on_ray(s, -7, t) || on_ray(s, -9, t));
        }
        if exists|d: int| is_direction(d) && #[trigger] on_ray(s, d, t) {
            let d = choose|d: int| is_direction(d) && #[trigger] on_ray(s, d, t);
            assert(same_rank_or_file(s, t) || same_diagonal(s, t));
        }
    }
    assert forall|t: int| #[trigger]
        member(bishop | rook, t) <==> (on_board(t) && t != s && (same_rank_or_file(s, t)
            || same_diagonal(s, t))) by {
        assert(clear_between(s, t, 0));
    }
}

/// A slider does not see through a piece: where `blocker` is occupied and lies on a line of
/// the slider through `s`, the tables give the slider `blocker` itself if nothing stands
/// before it, and no square that has `blocker` strictly between itself and `s`.
pub proof fn law_blocker(
    tables: Bitboards,
    kind: PieceType,
    side: Side,
    s: int,
    occupied: u64,
    blocker: int,
)
    requires
        tables.wf(),
        kind == PieceType::Rook || kind == PieceType::Bishop,
        on_board(s),
        slider_sees(kind, s, 0, blocker),
        member(occupied, blocker),
    ensures
        clear_between(s, blocker, occupied) ==> member(
            tables.attack_spec(Piece { kind, side }, s, occupied),
            blocker,
        ),
        forall|t: int|
            between(s, t, blocker) ==> !#[trigger] member(
                tables.attack_spec(Piece { kind, side }, s, occupied),
                t,
            ),
{
    law_exact_tables(tables, Piece { kind, side }, s, occupied);
    lemma_sliding_members(kind, s, occupied);
}

/// A single piece two steps along a ray is attacked, and nothing beyond it on that ray is.
pub proof fn law_single_blocker(
    tables: Bitboards,
    kind: PieceType,
    side: Side,
    s: int,
    d: int,
    blocker: int,
    occupied: u64,
)
    requires
        tables.wf(),
        kind == PieceType::Rook || kind == PieceType::Bishop,
        on_board(s),
        exists|i: int| 0 <= i < 4 && d == slider_directions(kind)[i],
        on_ray(s, d, blocker),
        distance_spec(s, blocker) == 2,
        forall|t: int| member(occupied, t) <==> t == blocker,
    ensures
        member(tables.attack_spec(Piece { kind, side }, s, occupied), blocker),
        forall|t: int|
            on_ray(s, d, t) && distance_spec(s, t) > 2 ==> !#[trigger] member(
                tables.attack_spec(Piece { kind, side }, s, occupied),
                t,
            ),
{
    law_exact_tables(tables, Piece { kind, side }, s, occupied);
    lemma_sliding_members(kind, s, occupied);
    let i = choose|i: int| 0 <= i < 4 && d == slider_directions(kind)[i];
    assert(i == 0 || i == 1 || i == 2 || i == 3);
    assert(slider_sees(kind, s, occupied, blocker)) by {
        assert forall|u: int| between(s, blocker, u) implies !member(occupied, u) by {}
    }
    assert forall|t: int| on_ray(s, d, t) && distance_spec(s, t) > 2 implies !#[trigger] member(
        sliding_attack_spec(kind, s, occupied),
        t,
    ) by {
        assert(between(s, t, blocker));
        assert(member(occupied, blocker));
    }
}

/// The queen too attacks a single piece two steps along one of her rays, and nothing beyond
/// it on that ray.
pub proof fn law_single_blocker_queen(
    tables: Bitboards,
    side: Side,
    s: int,
    d: int,
    blocker: int,
    occupied: u64,
)
    requires
        tables.wf(),
        on_board(s),
        is_direction(d),
        on_ray(s, d, blocker),
        distance_spec(s, blocker) == 2,
        forall|t: int| member(occupied, t) <==> t == blocker,
    ensures
        member(tables.attack_spec(Piece { kind: PieceType::Queen, side }, s, occupied), blocker),
        forall|t: int|
            on_ray(s, d, t) && distance_spec(s, t) > 2 ==> !#[trigger] member(
                tables.attack_spec(Piece { kind: PieceType::Queen, side }, s, occupied),
                t,
            ),
{
    let queen = Piece { kind: PieceType::Queen, side };
    let rook = sliding_attack_spec(PieceType::Rook, s, occupied);
    let bishop = sliding_attack_spec(PieceType::Bishop, s, occupied);
    law_exact_tables(tables, queen, s, occupied);
    lemma_sliding_members(PieceType::Rook, s, occupied);
    lemma_sliding_members(PieceType::Bishop, s, occupied);
    lemma_member_ops(bishop, rook);
    assert(member(occupied, blocker));
    assert forall|u: int| between(s, blocker, u) implies !member(occupied, u) by {}
    assert(slider_sees(PieceType::Rook, s, occupied, blocker) || slider_sees(
        PieceType::Bishop,
        s,
        occupied,
        blocker,
    ));
    assert forall|t: int| on_ray(s, d, t) && distance_spec(s, t) > 2 implies !#[trigger] member(
        bishop | rook,
        t,
    ) by {
        assert(between(s, t, blocker));
    }
}

/// White pawns attack toward higher ranks and black pawns toward lower ranks, so from one
/// square the two never attack the same square; a white pawn on the last rank and a black
/// pawn on the first rank attack nothing.
pub proof fn law_pawn_asymmetry(tables: Bitboards, s: int, occupied: u64)
    requires
        tables.wf(),
        on_board(s),
    ensures
        ({
            let white = tables.attack_spec(
                Piece { kind: PieceType::Pawn, side: Side::White },
                s,
                occupied,
            );
            let black = tables.attack_spec(
                Piece { kind: PieceType::Pawn, side: Side::Black },
                s,
                occupied,
            );
            &&& forall|t: int| #[trigger] member(white, t) <==> pawn_sees(Side::White, s, t)
            &&& forall|t: int| #[trigger] member(black, t) <==> pawn_sees(Side::Black, s, t)
            &&& forall|t: int| #[trigger] member(white, t) ==> rank_of(t) == rank_of(s) + 1
            &&& forall|t: int| #[trigger] member(black, t) ==> rank_of(t) == rank_of(s) - 1
            &&& white & black == 0
            &&& rank_of(s) == 7 ==> white == 0
            &&& rank_of(s) == 0 ==> black == 0
        }),
{
    let white = tables.attack_spec(Piece { kind: PieceType::Pawn, side: Side::White }, s, occupied);
    let black = tables.attack_spec(Piece { kind: PieceType::Pawn, side: Side::Black }, s, occupied);
    law_exact_tables(tables, Piece { kind: PieceType::Pawn, side: Side::White }, s, occupied);
    law_exact_tables(tables, Piece { kind: PieceType::Pawn, side: Side::Black }, s, occupied);
    lemma_fixed_members(s);
    lemma_member_empty();
    lemma_member_ops(white, black);
    lemma_bitboard_ext(white & black, 0);
    if rank_of(s) == 7 {
        lemma_bitboard_ext(white, 0);
    }
    if rank_of(s) == 0 {
        lemma_bitboard_ext(black, 0);
    }
}

/// The queen attacks what the rook and the bishop attack from her square, and nothing else.
pub proof fn law_queen_is_rook_or_bishop(tables: Bitboards, side: Side, s: int, occupied: u64)
    ensures
        tables.attack_spec(Piece { kind: PieceType::Queen, side }, s, occupied)
            == tables.attack_spec(Piece { kind: PieceType::Rook, side }, s, occupied)
            | tables.attack_spec(Piece { kind: PieceType::Bishop, side }, s, occupied),
        attack_set(Piece { kind: PieceType::Queen, side }, s, occupied) == attack_set(
            Piece { kind: PieceType::Rook, side },
            s,
            occupied,
        ) | attack_set(Piece { kind: PieceType::Bishop, side }, s, occupied),
{
    let r = tables.lookup(PieceType::Rook, s, occupied);
    let b = tables.lookup(PieceType::Bishop, s, occupied);
    assert(b | r == r | b) by (bit_vector);
    let rs = sliding_attack_spec(PieceType::Rook, s, occupied);
    let bs = sliding_attack_spec(PieceType::Bishop, s, occupied);
    assert(bs | rs == rs | bs) by (bit_vector);
}

/// Being in line does not depend on the order of the three squares.
pub proof fn law_collinear_symmetric(a: int, b: int, c: int)
    ensures
        collinear(a, b, c) == collinear(b, a, c),
        collinear(a, b, c) == collinear(a, c, b),
        collinear(a, b, c) == collinear(c, b, a),
        collinear(a, b, c) == collinear(b, c, a),
        collinear(a, b, c) == collinear(c, a, b),
{
}

/// The alignment table is symmetric, and each entry holds the squares in line with its pair:
/// for two squares that share no line, none.
pub proof fn law_line_table(tables: Bitboards, a: int, b: int)
    requires
        tables.wf(),
        on_board(a),
        on_board(b),
    ensures
        tables.line(a, b) == tables.line(b, a),
        forall|c: int| #[trigger]
            member(tables.line(a, b), c) <==> on_board(c) && collinear(a, b, c),
        !collinear(a, b, a) ==> tables.line(a, b) == 0,
{
    lemma_line_members(a, b);
    lemma_line_members(b, a);
    lemma_bitboard_ext(line_spec(a, b), line_spec(b, a));
    lemma_member_empty();
    if !collinear(a, b, a) {
        lemma_bitboard_ext(line_spec(a, b), 0);
    }
}

} // verus!
