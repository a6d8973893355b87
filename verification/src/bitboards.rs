use crate::attacks::{
    attack_set, between, clear_between, collinear, collinear_by, dir_file, dir_rank, is_direction,
    king_attack_spec, king_sees, knight_attack_spec, knight_sees, lemma_line_members,
    lemma_ray_geometry, lemma_safe_destination, lemma_safe_destination_member, lemma_slider_rays,
    line_spec, on_ray, pawn_attack_spec, pawn_sees, ray_sees, safe_destination_spec, scaled,
    slider_directions, slider_sees, sliding_attack_spec, steps_attack_spec,
};
use crate::bits::{
    bit, lemma_bitboard_of_unique, lemma_member_bit, lemma_member_empty, lemma_member_ops,
    lemma_union8, member, Bitboard, EMPTY,
};
use crate::defs::{
    color_of_piece, distance, distance_spec, file_bb, file_of, lemma_outer_lines, on_board,
    rank_bb, rank_of, square_bb, square_of, type_of_piece, Direction, Piece, PieceType, Side,
    Square, DOWN, DOWN_LEFT, DOWN_RIGHT, FILE_ABB, FILE_HBB, LEFT, RANK_1BB, RANK_8BB, RIGHT, UP,
    UP_LEFT, UP_RIGHT,
};
use crate::magics::{
    lemma_index_of_masked, lemma_magic_spec, lemma_next_subset, magic_number, magic_spec,
    next_subset, Magic, BISHOP_MAGIC_NUMBERS, ROOK_MAGIC_NUMBERS,
};
use crate::masks::{on_far_edge, relevant, relevant_mask};
use crate::render::{cell_text, cells_text, label_text, pretty_spec, rows_text, separator_text};
use crate::tables::{
    build, built_magics, count_filled, covers, exact_table, extends, fill_from, fill_square,
    grown, lemma_build_exact, lemma_built_table, lemma_count_filled_bounds,
    lemma_count_filled_store, lemma_extends_covers, lemma_sliding_attack_nonempty,
    lemma_store_extends, packed_table, store, TableState,
};
use vstd::prelude::*;
use vstd::string::StringExecFns;

verus! {

/// The attack tables of a chessboard: per-square attack sets of king, knight and pawns,
/// magic-indexed attack tables of rook and bishop, and the line through each pair of squares.
#[derive(Clone)]
pub struct Bitboards {
    king: [Bitboard; 64],
    knight: [Bitboard; 64],
    pawn_attacks: [[Bitboard; 64]; 2],
    rook: Vec<Bitboard>,
    bishop: Vec<Bitboard>,
    rook_magics: [Magic; 64],
    bishop_magics: [Magic; 64],
    pub line_bb: [[Bitboard; 64]; 64],
}

/// The row of the pawn table that belongs to `side`.
pub open spec fn side_index(side: Side) -> int {
    match side {
        Side::White => 0,
        Side::Black => 1,
    }
}

impl Bitboards {
    /// The king's attack set of each square.
    pub closed spec fn king_table(&self) -> Seq<u64> {
        self.king@
    }

    /// The knight's attack set of each square.
    pub closed spec fn knight_table(&self) -> Seq<u64> {
        self.knight@
    }

    /// The attack set of a pawn of `side` on each square.
    pub closed spec fn pawn_table(&self, side: Side) -> Seq<u64> {
        self.pawn_attacks[side_index(side)]@
    }

    /// The shared attack table of the rook or of the bishop.
    pub closed spec fn table(&self, kind: PieceType) -> Seq<u64> {
        if kind == PieceType::Rook {
            self.rook@
        } else {
            self.bishop@
        }
    }

    /// The magic records of the rook or of the bishop, one for each square.
    pub closed spec fn magics(&self, kind: PieceType) -> Seq<Magic> {
        if kind == PieceType::Rook {
            self.rook_magics@
        } else {
            self.bishop_magics@
        }
    }

    /// The entry of the alignment table for the pair `a`, `b`.
    pub closed spec fn line(&self, a: int, b: int) -> u64 {
        self.line_bb[a][b]
    }

    /// What the table of `kind` holds for a slider on `s` under `occupied`.
    pub open spec fn lookup(&self, kind: PieceType, s: int, occupied: u64) -> u64 {
        self.table(kind)[self.magics(kind)[s].index_spec(occupied)]
    }

    /// The magic records and the table of `kind` are those that `init_magics` leaves, starting
    /// from an empty table.
    pub open spec fn sliders_wf(&self, kind: PieceType) -> bool {
        &&& self.table(kind) == build(kind, 64, Seq::empty()).table
        &&& self.magics(kind) == built_magics(kind)
    }

    /// The tables are those that construction gives.
    pub open spec fn wf(&self) -> bool {
        &&& self.king_table().len() == 64
        &&& self.knight_table().len() == 64
        &&& self.pawn_table(Side::White).len() == 64
        &&& self.pawn_table(Side::Black).len() == 64
        &&& forall|s: int| 0 <= s < 64 ==> #[trigger] self.king_table()[s] == king_attack_spec(s)
        &&& forall|s: int|
            0 <= s < 64 ==> #[trigger] self.knight_table()[s] == knight_attack_spec(s)
        &&& forall|s: int|
            0 <= s < 64 ==> #[trigger] self.pawn_table(Side::White)[s] == pawn_attack_spec(
                Side::White,
                s,
            )
        &&& forall|s: int|
            0 <= s < 64 ==> #[trigger] self.pawn_table(Side::Black)[s] == pawn_attack_spec(
                Side::Black,
                s,
            )
        &&& self.sliders_wf(PieceType::Rook)
        &&& self.sliders_wf(PieceType::Bishop)
        &&& forall|a: int, b: int|
            0 <= a < 64 && 0 <= b < 64 ==> #[trigger] self.line(a, b) == line_spec(a, b)
    }

    /// What `attack_bb` returns: the stored set of pawn, knight and king, and for the sliders
    /// what their tables hold at the index of the occupancy.
    pub open spec fn attack_spec(&self, piece: Piece, s: int, occupied: u64) -> u64 {
        match piece.kind {
            PieceType::Pawn => self.pawn_table(piece.side)[s],
            PieceType::Knight => self.knight_table()[s],
            PieceType::King => self.king_table()[s],
            PieceType::Bishop => self.lookup(PieceType::Bishop, s, occupied),
            PieceType::Rook => self.lookup(PieceType::Rook, s, occupied),
            PieceType::Queen => self.lookup(PieceType::Bishop, s, occupied) | self.lookup(
                PieceType::Rook,
                s,
                occupied,
            ),
        }
    }

    /// The magic numbers are perfect: in the tables that construction gives, every occupancy
    /// of every square leads to the slot that holds the attack set of that occupancy, and the
    /// squares share each table without gaps.
    pub proof fn lemma_sliders(&self, kind: PieceType)
        requires
            self.wf(),
            kind == PieceType::Rook || kind == PieceType::Bishop,
        ensures
            exact_table(kind, self.magics(kind), self.table(kind)),
            packed_table(kind, self.magics(kind), self.table(kind)),
            forall|s: int|
                0 <= s < 64 ==> (#[trigger] self.magics(kind)[s]).shift < 64 && self.magics(
                    kind,
                )[s].reach() <= u32::MAX,
    {
        lemma_built_table(kind);
        assert(self.sliders_wf(kind));
        assert forall|s: int| 0 <= s < 64 implies (#[trigger] self.magics(kind)[s]).shift < 64
            && self.magics(kind)[s].reach() <= u32::MAX by {
            lemma_build_exact(kind, s);
            lemma_magic_spec(kind, s, build(kind, s, Seq::empty()).filled);
        }
    }

    /// Builds every table: the magic tables of rook and bishop, the attack sets of king,
    /// knight and pawns, and the line through each pair of squares.
    pub fn new() -> (mg: Bitboards)
        ensures
            mg.wf(),
    {
        let mut mg = Bitboards {
            king: [EMPTY; 64],
            knight: [EMPTY; 64],
            pawn_attacks: [[EMPTY; 64]; 2],
            rook: Vec::new(),
            bishop: Vec::new(),
            rook_magics: [Magic::default(); 64],
            bishop_magics: [Magic::default(); 64],
            line_bb: [[EMPTY; 64]; 64],
        };
        Bitboards::init_magics(PieceType::Rook, &mut mg.rook_magics, &mut mg.rook);
        Bitboards::init_magics(PieceType::Bishop, &mut mg.bishop_magics, &mut mg.bishop);
        proof {
            assert(mg.rook_magics@ =~= built_magics(PieceType::Rook));
            assert(mg.bishop_magics@ =~= built_magics(PieceType::Bishop));
        }
        let mut from: usize = 0;
        while from < 64
            invariant
                from <= 64,
                mg.sliders_wf(PieceType::Rook),
                mg.sliders_wf(PieceType::Bishop),
                forall|s: int| 0 <= s < from ==> #[trigger] mg.king[s] == king_attack_spec(s),
                forall|s: int| 0 <= s < from ==> #[trigger] mg.knight[s] == knight_attack_spec(s),
                forall|s: int|
                    0 <= s < from ==> #[trigger] mg.pawn_attacks[0][s] == pawn_attack_spec(
                        Side::White,
                        s,
                    ),
                forall|s: int|
                    0 <= s < from ==> #[trigger] mg.pawn_attacks[1][s] == pawn_attack_spec(
                        Side::Black,
                        s,
                    ),
                forall|a: int, b: int|
                    0 <= a < from && 0 <= b < 64 ==> #[trigger] mg.line_bb[a][b] == line_spec(a, b),
            decreases 64 - from,
        {
            mg.king[from] = Bitboards::king_attack(from);
            mg.knight[from] = Bitboards::knight_attack(from);
            mg.pawn_attacks[0][from] = Bitboards::pawn_attack(Side::White, from);
            mg.pawn_attacks[1][from] = Bitboards::pawn_attack(Side::Black, from);
            let mut too: usize = 0;
            while too < 64
                invariant
                    from < 64,
                    too <= 64,
                    mg.sliders_wf(PieceType::Rook),
                    mg.sliders_wf(PieceType::Bishop),
                    forall|s: int| 0 <= s <= from ==> #[trigger] mg.king[s] == king_attack_spec(s),
                    forall|s: int|
                        0 <= s <= from ==> #[trigger] mg.knight[s] == knight_attack_spec(s),
                    forall|s: int|
                        0 <= s <= from ==> #[trigger] mg.pawn_attacks[0][s] == pawn_attack_spec(
                            Side::White,
                            s,
                        ),
                    forall|s: int|
                        0 <= s <= from ==> #[trigger] mg.pawn_attacks[1][s] == pawn_attack_spec(
                            Side::Black,
                            s,
                        ),
                    forall|a: int, b: int|
                        0 <= a < from && 0 <= b < 64 ==> #[trigger] mg.line_bb[a][b] == line_spec(
                            a,
                            b,
                        ),
                    forall|b: int|
                        0 <= b < too ==> #[trigger] mg.line_bb[from as int][b] == line_spec(
                            from as int,
                            b,
                        ),
                decreases 64 - too,
            {
                mg.line_bb[from][too] = Bitboards::line_between(from, too);
                too += 1;
            }
            from += 1;
        }
        mg
    }

    /// The squares that `piece` on `square` attacks when the squares of `occupied` hold
    /// pieces. Pawn, knight and king have their stored set; rook and bishop have the entry of
    /// their table at the magic index of the occupancy; the queen has both, united.
    pub fn attack_bb(&self, piece: Piece, square: Square, occupied: Bitboard) -> (bb: Bitboard)
        requires
            self.wf(),
            square < 64,
        ensures
            bb == self.attack_spec(piece, square as int, occupied),
            bb == attack_set(piece, square as int, occupied),
    {
        proof {
            self.lemma_sliders(PieceType::Rook);
            self.lemma_sliders(PieceType::Bishop);
            let rook_magic = self.magics(PieceType::Rook)[square as int];
            let bishop_magic = self.magics(PieceType::Bishop)[square as int];
            assert(0 <= rook_magic.index_spec(occupied) < self.rook@.len());
            assert(0 <= bishop_magic.index_spec(occupied) < self.bishop@.len());
        }
        match type_of_piece(piece) {
            PieceType::Pawn => match color_of_piece(piece) {
                Side::White => self.pawn_attacks[0][square],
                Side::Black => self.pawn_attacks[1][square],
            },
            PieceType::King => self.king[square],
            PieceType::Knight => self.knight[square],
            PieceType::Bishop => self.bishop[self.bishop_magics[square].get_index(occupied)],
            PieceType::Rook => self.rook[self.rook_magics[square].get_index(occupied)],
            PieceType::Queen => {
                self.bishop[self.bishop_magics[square].get_index(occupied)]
                    | self.rook[self.rook_magics[square].get_index(occupied)]
            },
        }
    }

    /// Whether `c` lies in line with `a` and `b`: on the rank, file or diagonal through both.
    /// Where `a` and `b` are one square, on any rank, file or diagonal through it.
    pub fn aligned(&self, a: Square, b: Square, c: Square) -> (on_line: bool)
        requires
            self.wf(),
            a < 64,
            b < 64,
            c < 64,
        ensures
            on_line == collinear(a as int, b as int, c as int),
    {
        let line = self.line_bb[a][b];
        proof {
            assert(line == self.line(a as int, b as int));
            lemma_line_members(a as int, b as int);
            assert(member(line, c as int) <==> collinear(a as int, b as int, c as int));
        }
        line & square_bb(c) != EMPTY
    }

    /// Renders a bitboard as a grid of eight lines of eight cells, the eighth rank on top and
    /// the A-file on the left, with `X` in the cell of each square that the bitboard holds.
    pub fn pretty(bitboard: Bitboard) -> (output: String)
        ensures
            output@ == pretty_spec(bitboard),
    {
        let mut output =
            "  A   B   C   D   E   F   G   H  \n+---+---+---+---+---+---+---+---+\n".to_owned();
        let mut printed: usize = 0;
        while printed < 8
            invariant
                printed <= 8,
                output@ == rows_text(bitboard, printed as int),
            decreases 8 - printed,
        {
            let rank: usize = 7 - printed;
            let ghost above = output@;
            let mut file: usize = 0;
            while file < 8
                invariant
                    file <= 8,
                    rank < 8,
                    output@ == above + cells_text(bitboard, rank as int, file as int),
                decreases 8 - file,
            {
                let square = square_of(file, rank);
                let ghost cells = cells_text(bitboard, rank as int, file as int);
                if bitboard & (1u64 << square) != 0 {
                    output.append("| X ");
                } else {
                    output.append("|   ");
                }
                assert(output@ =~= above + (cells + cell_text(bitboard, square as int)));
                file += 1;
            }
            let label: &str = if rank == 0 {
                "| 1\n"
            } else if rank == 1 {
                "| 2\n"
            } else if rank == 2 {
                "| 3\n"
            } else if rank == 3 {
                "| 4\n"
            } else if rank == 4 {
                "| 5\n"
            } else if rank == 5 {
                "| 6\n"
            } else if rank == 6 {
                "| 7\n"
            } else {
                "| 8\n"
            };
            output.append(label);
            output.append("+---+---+---+---+---+---+---+---+\n");
            assert(output@ =~= above + cells_text(bitboard, rank as int, 8) + label_text(
                rank as int,
            ) + separator_text());
            printed += 1;
        }
        output
    }

    /// The bitboard of the square `step` away from `square`, or the empty bitboard where that
    /// square is off the board or more than two king steps away (the step wrapped round an edge).
    pub fn safe_destination(square: Square, step: Direction) -> (bb: Bitboard)
        requires
            square < 64,
        ensures
            bb == safe_destination_spec(square as int, step as int),
    {
        if step < -64 || step > 64 {
            return EMPTY;
        }
        let to: isize = square as isize + step;
        if to < 0 || to > 63 || distance(square, to as usize) > 2 {
            EMPTY
        } else {
            1u64 << to
        }
    }

    /// The squares that a slider on `square` reaches in one direction: each square of the ray up
    /// to the board's edge or the first occupied square, that one included.
    fn ray_attack(square: Square, direction: Direction, occupied: Bitboard) -> (attack_bb:
        Bitboard)
        requires
            square < 64,
            is_direction(direction as int),
        ensures
            forall|t: int| #[trigger]
                member(attack_bb, t) <==> ray_sees(square as int, direction as int, occupied, t),
    {
        let ghost s0 = square as int;
        let ghost d = direction as int;
        let mut attack_bb: Bitboard = EMPTY;
        let mut s: Square = square;
        let mut dest_bb: Bitboard = Bitboards::safe_destination(s, direction);
        let ghost mut k: int = 0;
        proof {
            lemma_member_empty();
            lemma_ray_geometry(s0, d);
        }
        while dest_bb != EMPTY && occupied & dest_bb == EMPTY
            invariant
                s < 64,
                0 <= k <= 7,
                s0 == square as int,
                d == direction as int,
                on_board(s0),
                is_direction(d),
                file_of(s as int) == file_of(s0) + scaled(dir_file(d), k),
                rank_of(s as int) == rank_of(s0) + scaled(dir_rank(d), k),
                dest_bb == safe_destination_spec(s as int, d),
                forall|t: int| #[trigger]
                    member(attack_bb, t) <==> on_ray(s0, d, t) && distance_spec(s0, t) <= k,
                forall|u: int|
                    on_ray(s0, d, u) && distance_spec(s0, u) <= k ==> !member(occupied, u),
            decreases 7 - k,
        {
            let ghost prev_bb = attack_bb;
            let ghost next = s as int + d;
            proof {
                lemma_safe_destination(s as int, dir_file(d), dir_rank(d));
                lemma_member_ops(attack_bb, dest_bb);
                lemma_member_bit(next);
                lemma_ray_geometry(s0, d);
                assert(dest_bb == bit(next));
                assert(on_ray(s0, d, next));
                assert(distance_spec(s0, next) == k + 1);
                assert(!member(occupied, next));
            }
            attack_bb |= dest_bb;
            s = (s as isize + direction) as usize;
            dest_bb = Bitboards::safe_destination(s, direction);
            proof {
                k = k + 1;
                assert forall|t: int| #[trigger]
                    member(attack_bb, t) <==> on_ray(s0, d, t) && distance_spec(s0, t) <= k by {
                    assert(member(attack_bb, t) <==> member(prev_bb, t) || member(bit(next), t));
                    assert(member(bit(next), t) <==> t == next);
                    if on_ray(s0, d, t) && distance_spec(s0, t) == k {
                        assert(t == next);
                    }
                }
                assert forall|u: int| on_ray(s0, d, u) && distance_spec(s0, u) <= k implies !member(
                    occupied,
                    u,
                ) by {
                    if distance_spec(s0, u) == k {
                        assert(u == next);
                    }
                }
            }
        }
        let ghost next = s as int + d;
        proof {
            lemma_safe_destination(s as int, dir_file(d), dir_rank(d));
            lemma_member_ops(attack_bb, dest_bb);
            lemma_ray_geometry(s0, d);
            assert forall|t: int| #[trigger]
                member(attack_bb | dest_bb, t) <==> ray_sees(s0, d, occupied, t) by {
                assert(member(attack_bb | dest_bb, t) <==> member(attack_bb, t) || member(
                    dest_bb,
                    t,
                ));
                if dest_bb == 0 {
                    // The ray ends at the board's edge after `k` squares.
                    if on_ray(s0, d, t) {
                        assert(distance_spec(s0, t) <= k);
                        assert(clear_between(s0, t, occupied)) by {
                            assert forall|u: int| between(s0, t, u) implies !member(
                                occupied,
                                u,
                            ) by {
                                assert(on_ray(s0, d, u) && distance_spec(s0, u)
                                    < distance_spec(s0, t));
                            }
                        }
                    }
                } else {
                    // The ray ends at an occupied square, `k + 1` steps away.
                    lemma_member_bit(next);
                    assert(dest_bb == bit(next));
                    assert(on_ray(s0, d, next));
                    assert(distance_spec(s0, next) == k + 1);
                    assert(member(occupied, next));
                    assert(member(dest_bb, t) <==> t == next);
                    if on_ray(s0, d, t) {
                        if distance_spec(s0, t) <= k + 1 {
                            if distance_spec(s0, t) == k + 1 {
                                assert(t == next);
                            }
                            assert(clear_between(s0, t, occupied)) by {
                                assert forall|u: int| between(s0, t, u) implies !member(
                                    occupied,
                                    u,
                                ) by {
                                    assert(on_ray(s0, d, u) && distance_spec(s0, u)
                                        < distance_spec(s0, t));
                                }
                            }
                        } else {
                            assert(between(s0, t, next));
                        }
                    }
                }
            }
        }
        attack_bb |= dest_bb;
        attack_bb
    }

    /// The squares that a rook or a bishop on `square` attacks when the squares of `occupied`
    /// hold pieces: along each of its four directions every square up to the board's edge or
    /// the first occupied square, that one included.
    pub fn sliding_attack(kind: PieceType, square: Square, occupied: Bitboard) -> (attack_bb:
        Bitboard)
        requires
            square < 64,
            kind == PieceType::Rook || kind == PieceType::Bishop,
        ensures
            attack_bb == sliding_attack_spec(kind, square as int, occupied),
            forall|t: int| #[trigger]
                member(attack_bb, t) <==> slider_sees(kind, square as int, occupied, t),
    {
        let directions: [Direction; 4] = match kind {
            PieceType::Rook => [UP, DOWN, LEFT, RIGHT],
            _ => [UP_LEFT, UP_RIGHT, DOWN_LEFT, DOWN_RIGHT],
        };
        let ghost dirs = slider_directions(kind);
        let mut attack_bb: Bitboard = EMPTY;
        let mut i: usize = 0;
        proof {
            lemma_member_empty();
        }
        while i < 4
            invariant
                i <= 4,
                square < 64,
                dirs == slider_directions(kind),
                kind == PieceType::Rook || kind == PieceType::Bishop,
                forall|j: int| 0 <= j < 4 ==> directions[j] as int == #[trigger] dirs[j],
                forall|t: int|
                    #[trigger] member(attack_bb, t) <==> (exists|j: int|
                        0 <= j < i && ray_sees(square as int, #[trigger] dirs[j], occupied, t)),
            decreases 4 - i,
        {
            let ghost prev_bb = attack_bb;
            let ray_bb = Bitboards::ray_attack(square, directions[i], occupied);
            attack_bb |= ray_bb;
            proof {
                lemma_member_ops(prev_bb, ray_bb);
                assert forall|t: int|
                    #[trigger] member(attack_bb, t) <==> (exists|j: int|
                        0 <= j < i + 1 && ray_sees(
                            square as int,
                            #[trigger] dirs[j],
                            occupied,
                            t,
                        )) by {
                    assert(member(ray_bb, t) <==> ray_sees(
                        square as int,
                        dirs[i as int],
                        occupied,
                        t,
                    ));
                    if member(prev_bb, t) {
                        let j = choose|j: int|
                            0 <= j < i && ray_sees(square as int, #[trigger] dirs[j], occupied, t);
                        assert(0 <= j < i + 1);
                    }
                }
            }
            i += 1;
        }
        proof {
            assert forall|t: int| #[trigger]
                member(attack_bb, t) <==> slider_sees(kind, square as int, occupied, t) by {
                lemma_slider_rays(kind, square as int, occupied, t);
            }
            lemma_bitboard_of_unique(
                attack_bb,
                |t: int| slider_sees(kind, square as int, occupied, t),
            );
        }
        attack_bb
    }

    /// The squares whose occupancy decides what a rook or a bishop on `square` attacks: its
    /// attack set on the empty board without the far end of each ray.
    pub fn occupancy_mask(kind: PieceType, square: Square) -> (mask: Bitboard)
        requires
            square < 64,
            kind == PieceType::Rook || kind == PieceType::Bishop,
        ensures
            mask == relevant_mask(kind, square as int),
            forall|t: int| #[trigger] member(mask, t) <==> relevant(kind, square as int, t),
    {
        let outer_ranks: Bitboard = RANK_1BB | RANK_8BB;
        let outer_files: Bitboard = FILE_ABB | FILE_HBB;
        let own_rank: Bitboard = rank_bb(square);
        let own_file: Bitboard = file_bb(square);
        let edges: Bitboard = (outer_ranks & !own_rank) | (outer_files & !own_file);
        let attack_bb: Bitboard = Bitboards::sliding_attack(kind, square, EMPTY);
        let mask: Bitboard = attack_bb & !edges;
        proof {
            lemma_member_ops(outer_ranks, !own_rank);
            lemma_member_ops(outer_files, !own_file);
            lemma_member_ops(own_rank, own_file);
            lemma_member_ops(own_file, own_rank);
            lemma_member_ops(outer_ranks & !own_rank, outer_files & !own_file);
            lemma_member_ops(edges, attack_bb);
            lemma_member_ops(attack_bb, !edges);
            assert forall|t: int| #[trigger]
                member(mask, t) <==> relevant(kind, square as int, t) by {
                if 0 <= t < 64 {
                    lemma_outer_lines(t as u64);
                    assert(member(edges, t) <==> on_far_edge(square as int, t));
                }
            }
            lemma_bitboard_of_unique(mask, |t: int| relevant(kind, square as int, t));
        }
        mask
    }

    /// Fills the magic records of the 64 squares and stores every attack set of `kind` in the
    /// shared table. The squares are taken in order; for each, every subset of its mask is
    /// taken in ascending order and its attack set stored at the subset's index, unless that
    /// slot is filled already. A square's entries start at the number of slots that the
    /// squares before it filled.
    pub fn init_magics(kind: PieceType, magics: &mut [Magic; 64], table: &mut Vec<Bitboard>)
        requires
            kind == PieceType::Rook || kind == PieceType::Bishop,
        ensures
            final(table)@ == build(kind, 64, old(table)@).table,
            forall|s: int|
                0 <= s < 64 ==> final(magics)[s] == magic_spec(
                    kind,
                    s,
                    build(kind, s, old(table)@).filled,
                ),
            forall|s: int|
                0 <= s < 64 ==> (#[trigger] final(magics)[s]).shift < 64 && final(magics)[s].reach()
                    <= u32::MAX,
            forall|s: int| 0 <= s < 64 ==> covers(final(table)@, #[trigger] final(magics)[s]),
            extends(old(table)@, final(table)@),
            old(table)@.len() == 0 ==> exact_table(kind, final(magics)@, final(table)@)
                && packed_table(kind, final(magics)@, final(table)@),
    {
        let ghost table0 = table@;
        let mut offset: u64 = 0;
        let magic_numbers: [u64; 64] = match kind {
            PieceType::Rook => ROOK_MAGIC_NUMBERS,
            _ => BISHOP_MAGIC_NUMBERS,
        };
        let mut square: usize = 0;
        while square < 64
            invariant
                square <= 64,
                kind == PieceType::Rook || kind == PieceType::Bishop,
                forall|s: int| 0 <= s < 64 ==> magic_numbers[s] == magic_number(kind, s),
                table@ == build(kind, square as int, table0).table,
                offset == build(kind, square as int, table0).filled,
                offset <= square * 0x1000,
                extends(table0, table@),
                forall|s: int|
                    0 <= s < square ==> magics[s] == magic_spec(
                        kind,
                        s,
                        build(kind, s, table0).filled,
                    ),
                forall|s: int|
                    0 <= s < square ==> (#[trigger] magics[s]).shift < 64 && magics[s].reach()
                        <= u32::MAX,
                forall|s: int| 0 <= s < square ==> covers(table@, #[trigger] magics[s]),
            decreases 64 - square,
        {
            let ghost before = TableState { table: table@, filled: offset as int };
            let ghost lo = offset as int;
            let ghost hi = offset as int + 0x1000;
            let ghost filled0 = count_filled(table@, lo, hi);
            let mask = Bitboards::occupancy_mask(kind, square);
            proof {
                lemma_magic_spec(kind, square as int, offset as int);
                lemma_count_filled_bounds(table@, lo, hi);
            }
            let magic = Magic {
                mask,
                number: magic_numbers[square],
                shift: 64 - mask.count_ones() as u8,
                offset,
            };
            assert(magic == magic_spec(kind, square as int, offset as int));
            magics[square] = magic;
            let mut occupied: Bitboard = EMPTY;
            proof {
                lemma_index_of_masked(magic, 0);
            }
            loop
                invariant_except_break
                    occupied & !mask == 0,
                    fill_from(
                        kind,
                        square as int,
                        magic,
                        occupied,
                        TableState { table: table@, filled: offset as int },
                    ) == fill_square(kind, square as int, before),
                    forall|x: u64|
                        x & !mask == 0 && x < occupied ==> 0 <= #[trigger] magic.index_spec(x)
                            < table.len() && table@[magic.index_spec(x)] != 0,
                invariant
                    square < 64,
                    kind == PieceType::Rook || kind == PieceType::Bishop,
                    magic == magic_spec(kind, square as int, before.filled),
                    magic.mask == mask,
                    magic.offset == lo,
                    52 <= magic.shift < 64,
                    magic.reach() < hi,
                    hi == lo + 0x1000,
                    lo == before.filled,
                    0 <= lo <= 64 * 0x1000,
                    extends(before.table, table@),
                    0 <= filled0,
                    offset + filled0 == lo + count_filled(table@, lo, hi),
                ensures
                    table@ == fill_square(kind, square as int, before).table,
                    offset == fill_square(kind, square as int, before).filled,
                    covers(table@, magic),
                decreases mask - occupied,
            {
                let ghost cur = TableState { table: table@, filled: offset as int };
                proof {
                    lemma_count_filled_bounds(cur.table, lo, hi);
                }
                let index = magic.get_index(occupied);
                if table.len() <= index {
                    table.resize(index + 1, EMPTY);
                }
                assert(table@ =~= grown(cur.table, index as int));
                let attack_bb = Bitboards::sliding_attack(kind, square, occupied);
                proof {
                    lemma_sliding_attack_nonempty(kind, square as int, occupied);
                    lemma_count_filled_bounds(table@, lo, hi);
                }
                if table[index] == EMPTY {
                    offset += 1;
                    table[index] = attack_bb;
                }
                let ghost stored = store(cur, index as int, attack_bb);
                proof {
                    assert(table@ =~= stored.table);
                    assert(offset == stored.filled);
                    lemma_store_extends(cur, index as int, attack_bb);
                    lemma_count_filled_store(cur, index as int, attack_bb, lo, hi);
                    lemma_next_subset(mask, occupied);
                    lemma_count_filled_bounds(table@, lo, hi);
                }
                let next: Bitboard = occupied.wrapping_sub(mask) & mask;
                assert(next == next_subset(mask, occupied));
                proof {
                    assert forall|x: u64| x & !mask == 0 && x <= occupied implies 0
                        <= #[trigger] magic.index_spec(x) < table.len() && table@[magic.index_spec(
                        x,
                    )] != 0 by {
                        if x < occupied {
                            let i = magic.index_spec(x);
                            assert(0 <= i < cur.table.len() && cur.table[i] != 0);
                        }
                    }
                }
                if next == 0 {
                    proof {
                        assert forall|x: u64|
                            0 <= #[trigger] magic.index_spec(x) < table.len()
                                && table@[magic.index_spec(x)] != 0 by {
                            lemma_index_of_masked(magic, x);
                            let y = x & mask;
                            assert(y & !mask == 0 && y <= occupied);
                            assert(0 <= magic.index_spec(y) < table.len());
                        }
                    }
                    break ;
                }
                occupied = next;
            }
            proof {
                assert(build(kind, square as int + 1, table0) == fill_square(
                    kind,
                    square as int,
                    before,
                ));
                lemma_count_filled_bounds(table@, lo, hi);
                assert forall|s: int| 0 <= s < square implies covers(
                    table@,
                    #[trigger] magics[s],
                ) by {
                    lemma_extends_covers(before.table, table@, magics[s]);
                }
            }
            square += 1;
        }
        proof {
            if table0.len() == 0 {
                assert(table0 =~= Seq::empty());
                assert(magics@ =~= built_magics(kind));
                lemma_built_table(kind);
            }
        }
    }

    /// The union of the safe destinations of `steps` from `square`.
    fn steps_attack<const N: usize>(square: Square, steps: &[Direction; N]) -> (attack_bb:
        Bitboard)
        requires
            square < 64,
        ensures
            attack_bb == steps_attack_spec(square as int, steps@, N as int),
    {
        let mut attack_bb: Bitboard = EMPTY;
        let mut i: usize = 0;
        while i < N
            invariant
                i <= N,
                square < 64,
                attack_bb == steps_attack_spec(square as int, steps@, i as int),
            decreases N - i,
        {
            attack_bb |= Bitboards::safe_destination(square, steps[i]);
            i += 1;
        }
        attack_bb
    }

    /// The squares that a king on `square` attacks.
    pub fn king_attack(square: Square) -> (attack_bb: Bitboard)
        requires
            square < 64,
        ensures
            attack_bb == king_attack_spec(square as int),
    {
        let steps: [Direction; 8] = [-9, -8, -7, -1, 1, 7, 8, 9];
        let attack_bb = Bitboards::steps_attack(square, &steps);
        proof {
            let s = square as int;
            reveal_with_fuel(steps_attack_spec, 9);
            lemma_union8(
                safe_destination_spec(s, -9),
                safe_destination_spec(s, -8),
                safe_destination_spec(s, -7),
                safe_destination_spec(s, -1),
                safe_destination_spec(s, 1),
                safe_destination_spec(s, 7),
                safe_destination_spec(s, 8),
                safe_destination_spec(s, 9),
            );
            assert forall|t: int| 0 <= t < 64 implies (#[trigger] member(attack_bb, t)
                <==> king_sees(s, t)) by {
                lemma_safe_destination_member(s, -1, -1, t);
                lemma_safe_destination_member(s, 0, -1, t);
                lemma_safe_destination_member(s, 1, -1, t);
                lemma_safe_destination_member(s, -1, 0, t);
                lemma_safe_destination_member(s, 1, 0, t);
                lemma_safe_destination_member(s, -1, 1, t);
                lemma_safe_destination_member(s, 0, 1, t);
                lemma_safe_destination_member(s, 1, 1, t);
            }
            lemma_bitboard_of_unique(attack_bb, |t: int| king_sees(s, t));
        }
        attack_bb
    }

    /// The squares that a knight on `square` attacks.
    pub fn knight_attack(square: Square) -> (attack_bb: Bitboard)
        requires
            square < 64,
        ensures
            attack_bb == knight_attack_spec(square as int),
    {
        let steps: [Direction; 8] = [-17, -15, -10, -6, 6, 10, 15, 17];
        let attack_bb = Bitboards::steps_attack(square, &steps);
        proof {
            let s = square as int;
            reveal_with_fuel(steps_attack_spec, 9);
            lemma_union8(
                safe_destination_spec(s, -17),
                safe_destination_spec(s, -15),
                safe_destination_spec(s, -10),
                safe_destination_spec(s, -6),
                safe_destination_spec(s, 6),
                safe_destination_spec(s, 10),
                safe_destination_spec(s, 15),
                safe_destination_spec(s, 17),
            );
            assert forall|t: int| 0 <= t < 64 implies (#[trigger] member(attack_bb, t)
                <==> knight_sees(s, t)) by {
                lemma_safe_destination_member(s, -1, -2, t);
                lemma_safe_destination_member(s, 1, -2, t);
                lemma_safe_destination_member(s, -2, -1, t);
                lemma_safe_destination_member(s, 2, -1, t);
                lemma_safe_destination_member(s, -2, 1, t);
                lemma_safe_destination_member(s, 2, 1, t);
                lemma_safe_destination_member(s, -1, 2, t);
                lemma_safe_destination_member(s, 1, 2, t);
            }
            lemma_bitboard_of_unique(attack_bb, |t: int| knight_sees(s, t));
        }
        attack_bb
    }

    /// The squares that a pawn of `side` on `square` attacks.
    pub fn pawn_attack(side: Side, square: Square) -> (attack_bb: Bitboard)
        requires
            square < 64,
        ensures
            attack_bb == pawn_attack_spec(side, square as int),
    {
        let steps: [Direction; 2] = match side {
            Side::White => [7, 9],
            Side::Black => [-7, -9],
        };
        let attack_bb = Bitboards::steps_attack(square, &steps);
        proof {
            let s = square as int;
            reveal_with_fuel(steps_attack_spec, 3);
            let a = safe_destination_spec(s, steps@[0] as int);
            let b = safe_destination_spec(s, steps@[1] as int);
            lemma_member_empty();
            lemma_member_ops(0, a);
            lemma_member_ops(0 | a, b);
            assert forall|t: int| 0 <= t < 64 implies (#[trigger] member(attack_bb, t)
                <==> pawn_sees(side, s, t)) by {
                lemma_safe_destination_member(s, -1, 1, t);
                lemma_safe_destination_member(s, 1, 1, t);
                lemma_safe_destination_member(s, 1, -1, t);
                lemma_safe_destination_member(s, -1, -1, t);
            }
            lemma_bitboard_of_unique(attack_bb, |t: int| pawn_sees(side, s, t));
        }
        attack_bb
    }

    /// The squares in line with `from` and `too` on the lines of `kind`: where the two are one
    /// square or attack each other on the empty board, what both attack there and the two
    /// squares themselves; nothing otherwise.
    fn line_by(kind: PieceType, from: Square, too: Square) -> (line: Bitboard)
        requires
            from < 64,
            too < 64,
            kind == PieceType::Rook || kind == PieceType::Bishop,
        ensures
            forall|t: int| #[trigger]
                member(line, t) <==> on_board(t) && collinear_by(
                    kind,
                    from as int,
                    too as int,
                    t,
                ),
    {
        let ghost a = from as int;
        let ghost b = too as int;
        let from_bb = Bitboards::sliding_attack(kind, from, EMPTY);
        let too_bit = square_bb(too);
        proof {
            lemma_member_bit(a);
            lemma_member_bit(b);
            lemma_member_empty();
            assert(forall|s: int, t: int| #[trigger] clear_between(s, t, 0));
            assert(from_bb & too_bit != 0 <==> member(from_bb, b));
            assert(member(from_bb, b) <==> slider_sees(kind, a, 0, b));
        }
        if from == too || from_bb & too_bit != EMPTY {
            let too_bb = Bitboards::sliding_attack(kind, too, EMPTY);
            let ends = square_bb(from) | too_bit;
            let line = (from_bb & too_bb) | ends;
            proof {
                lemma_member_ops(bit(a), bit(b));
                lemma_member_ops(from_bb, too_bb);
                lemma_member_ops(from_bb & too_bb, ends);
                assert forall|t: int|
                    #[trigger] member(line, t) <==> on_board(t) && collinear_by(kind, a, b, t) by {
                    assert(member(line, t) <==> member(from_bb & too_bb, t) || member(ends, t));
                    assert(member(ends, t) <==> t == a || t == b);
                    assert(member(from_bb & too_bb, t) <==> slider_sees(kind, a, 0, t)
                        && slider_sees(kind, b, 0, t));
                }
            }
            line
        } else {
            proof {
                assert forall|t: int|
                    #[trigger] member(0, t) <==> on_board(t) && collinear_by(kind, a, b, t) by {
                    assert(!slider_sees(kind, a, 0, b));
                }
            }
            EMPTY
        }
    }

    /// The squares in line with `from` and `too`: where the two differ, the whole rank, file
    /// or diagonal through both, or nothing if they share none; where they are one square,
    /// every square that shares a rank, a file or a diagonal with it.
    pub fn line_between(from: Square, too: Square) -> (line: Bitboard)
        requires
            from < 64,
            too < 64,
        ensures
            line == line_spec(from as int, too as int),
    {
        let rook_line = Bitboards::line_by(PieceType::Rook, from, too);
        let bishop_line = Bitboards::line_by(PieceType::Bishop, from, too);
        let line = rook_line | bishop_line;
        proof {
            lemma_member_ops(rook_line, bishop_line);
            assert forall|t: int| 0 <= t < 64 implies (#[trigger] member(line, t) <==> collinear(
                from as int,
                too as int,
                t,
            )) by {
                assert(member(line, t) <==> member(rook_line, t) || member(bishop_line, t));
                assert(collinear(from as int, too as int, t) <==> collinear_by(
                    PieceType::Rook,
                    from as int,
                    too as int,
                    t,
                ) || collinear_by(PieceType::Bishop, from as int, too as int, t));
            }
            lemma_bitboard_of_unique(line, |c: int| collinear(from as int, too as int, c));
        }
        line
    }
}

} // verus!
