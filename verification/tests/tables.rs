use bitboards::bitboards::Bitboards;
use bitboards::defs::{Piece, PieceType, Side};
use bitboards::magics::{Magic, BISHOP_MAGIC_NUMBERS, ROOK_MAGIC_NUMBERS};

fn piece(kind: PieceType) -> Piece {
    Piece { kind, side: Side::White }
}

fn blank() -> [Magic; 64] {
    [Magic::default(); 64]
}

fn next_random(state: &mut u64) -> u64 {
    *state ^= *state << 13;
    *state ^= *state >> 7;
    *state ^= *state << 17;
    *state
}

#[test]
fn default_magic_is_all_zero() {
    let magic = Magic::default();
    assert_eq!(magic.mask, 0);
    assert_eq!(magic.number, 0);
    assert_eq!(magic.shift, 0);
    assert_eq!(magic.offset, 0);
}

#[test]
fn get_index_masks_multiplies_shifts_and_adds_the_offset() {
    let magic = Magic { mask: 0x0F, number: 1u64 << 60, shift: 60, offset: 5 };
    assert_eq!(magic.get_index(0b1011_0110), 11);
    assert_eq!(magic.get_index(0), 5);
    assert_eq!(magic.get_index(0xFFFF_FFFF_FFFF_FFF0), 5);
    assert_eq!(magic.get_index(u64::MAX), 20);
}

#[test]
fn get_index_multiplies_modulo_two_to_the_64() {
    let magic = Magic { mask: 0x0F, number: 3u64 << 60, shift: 60, offset: 5 };
    // 6 * 3 = 18, of which the low four bits, 2, stay in the top four bits of the product.
    assert_eq!(magic.get_index(6), 7);
    let magic = Magic { mask: u64::MAX, number: u64::MAX, shift: 32, offset: 0 };
    assert_eq!(magic.get_index(2), 0xFFFF_FFFF);
}

#[test]
fn init_magics_fills_one_slot_for_each_subset() {
    let mut magics = blank();
    let mut table: Vec<u64> = Vec::new();
    Bitboards::init_magics(PieceType::Rook, &mut magics, &mut table);
    assert_eq!(table.len(), 102_400);
    assert!(table.iter().all(|&entry| entry != 0));
    let mut magics = blank();
    let mut table: Vec<u64> = Vec::new();
    Bitboards::init_magics(PieceType::Bishop, &mut magics, &mut table);
    assert_eq!(table.len(), 5_248);
    assert!(table.iter().all(|&entry| entry != 0));
}

#[test]
fn init_magics_sets_mask_number_shift_and_offset() {
    let mut magics = blank();
    let mut table: Vec<u64> = Vec::new();
    Bitboards::init_magics(PieceType::Rook, &mut magics, &mut table);
    assert_eq!(magics[0].mask, 0x0001_0101_0101_017E);
    assert_eq!(magics[0].shift, 52);
    assert_eq!(magics[0].offset, 0);
    assert_eq!(magics[1].offset, 4096);
    assert_eq!(magics[2].offset, 6144);
    assert_eq!(magics[3].offset, 8192);
    assert_eq!(magics[27].mask, 0x0008_0808_7608_0800);
    assert_eq!(magics[27].shift, 54);
    assert_eq!(magics[63].offset, 98_304);
    let mut offset = 0u64;
    for square in 0..64 {
        assert_eq!(magics[square].mask, Bitboards::occupancy_mask(PieceType::Rook, square));
        assert_eq!(magics[square].number, ROOK_MAGIC_NUMBERS[square]);
        assert_eq!(u32::from(magics[square].shift), 64 - magics[square].mask.count_ones());
        assert_eq!(magics[square].offset, offset);
        offset += 1u64 << magics[square].mask.count_ones();
    }

    let mut magics = blank();
    let mut table: Vec<u64> = Vec::new();
    Bitboards::init_magics(PieceType::Bishop, &mut magics, &mut table);
    assert_eq!(magics[0].mask, 0x0040_2010_0804_0200);
    assert_eq!(magics[0].shift, 58);
    assert_eq!(magics[1].offset, 64);
    assert_eq!(magics[2].offset, 96);
    assert_eq!(magics[27].shift, 55);
    assert_eq!(magics[63].offset, 5_184);
    for square in 0..64 {
        assert_eq!(magics[square].mask, Bitboards::occupancy_mask(PieceType::Bishop, square));
        assert_eq!(magics[square].number, BISHOP_MAGIC_NUMBERS[square]);
        assert_eq!(u32::from(magics[square].shift), 64 - magics[square].mask.count_ones());
    }
}

#[test]
fn every_subset_of_every_mask_has_its_own_slot_with_its_attack_set() {
    for kind in [PieceType::Rook, PieceType::Bishop] {
        let mut magics = blank();
        let mut table: Vec<u64> = Vec::new();
        Bitboards::init_magics(kind, &mut magics, &mut table);
        let mut seen = vec![false; table.len()];
        let mut subsets = 0usize;
        for square in 0..64 {
            let mask = magics[square].mask;
            let mut occupied = 0u64;
            loop {
                let index = magics[square].get_index(occupied);
                assert!(!seen[index]);
                seen[index] = true;
                assert_eq!(table[index], Bitboards::sliding_attack(kind, square, occupied));
                subsets += 1;
                occupied = occupied.wrapping_sub(mask) & mask;
                if occupied == 0 {
                    break;
                }
            }
        }
        assert_eq!(subsets, table.len());
        assert!(seen.iter().all(|&hit| hit));
    }
}

#[test]
fn init_magics_keeps_the_slots_that_were_filled_before() {
    let mut magics = blank();
    let mut table: Vec<u64> = vec![7; 10];
    table.push(0);
    Bitboards::init_magics(PieceType::Bishop, &mut magics, &mut table);
    assert!(table.len() > 11);
    assert!(table[..10].iter().all(|&entry| entry == 7));
    assert_ne!(table[10], 0);
    assert_eq!(magics[0].offset, 0);
    // Ten of the 64 slots that the first square reaches were taken.
    assert_eq!(magics[1].offset, 54);
}

#[test]
fn lookups_return_the_attack_set_for_every_subset() {
    let tables = Bitboards::new();
    for kind in [PieceType::Rook, PieceType::Bishop] {
        for square in 0..64 {
            let mask = Bitboards::occupancy_mask(kind, square);
            let mut occupied = 0u64;
            loop {
                assert_eq!(
                    tables.attack_bb(piece(kind), square, occupied),
                    Bitboards::sliding_attack(kind, square, occupied)
                );
                occupied = occupied.wrapping_sub(mask) & mask;
                if occupied == 0 {
                    break;
                }
            }
        }
    }
}

#[test]
fn lookups_return_the_attack_set_for_any_occupancy() {
    let tables = Bitboards::new();
    let mut state = 0xDEAD_BEEF_0BAD_F00Du64;
    for square in 0..64 {
        for _ in 0..300 {
            let occupied = next_random(&mut state) & next_random(&mut state);
            for kind in [PieceType::Rook, PieceType::Bishop] {
                assert_eq!(
                    tables.attack_bb(piece(kind), square, occupied),
                    Bitboards::sliding_attack(kind, square, occupied)
                );
            }
        }
    }
}

#[test]
fn rook_on_d4_with_empty_board_attacks_rank_and_file() {
    let tables = Bitboards::new();
    let d4 = 27;
    let rank_4: u64 = 0x0000_0000_FF00_0000;
    let file_d: u64 = 0x0808_0808_0808_0808;
    let expected = (rank_4 | file_d) & !(1u64 << d4);
    assert_eq!(tables.attack_bb(piece(PieceType::Rook), d4, 0), expected);
}

#[test]
fn sliders_on_the_empty_board_reach_the_edge() {
    let tables = Bitboards::new();
    for square in 0..64usize {
        let file = (square % 8) as i32;
        let rank = (square / 8) as i32;
        let mut straight = 0u64;
        let mut diagonal = 0u64;
        for target in 0..64usize {
            let df = (target % 8) as i32 - file;
            let dr = (target / 8) as i32 - rank;
            if target != square && (df == 0 || dr == 0) {
                straight |= 1u64 << target;
            }
            if target != square && df.abs() == dr.abs() {
                diagonal |= 1u64 << target;
            }
        }
        assert_eq!(tables.attack_bb(piece(PieceType::Rook), square, 0), straight);
        assert_eq!(tables.attack_bb(piece(PieceType::Bishop), square, 0), diagonal);
        assert_eq!(tables.attack_bb(piece(PieceType::Queen), square, 0), straight | diagonal);
    }
}

#[test]
fn lookup_includes_the_blocker_and_nothing_beyond() {
    let tables = Bitboards::new();
    let rook = piece(PieceType::Rook);
    // Rook a1, piece on a3.
    let attack = tables.attack_bb(rook, 0, 1u64 << 16);
    assert_eq!(attack, 0x0000_0000_0001_01FE);
    assert_ne!(attack & (1u64 << 16), 0);
    assert_eq!(attack & (1u64 << 24), 0);
    // Bishop c1, piece on e3.
    let attack = tables.attack_bb(piece(PieceType::Bishop), 2, 1u64 << 20);
    assert_eq!(attack, 0x0000_0000_0011_0A00);
}

#[test]
fn queen_attacks_are_rook_and_bishop_attacks_together() {
    let tables = Bitboards::new();
    let mut state = 0x0123_4567_89AB_CDEFu64;
    for square in 0..64 {
        for round in 0..100 {
            let occupied = if round == 0 { 0 } else { next_random(&mut state) & next_random(&mut state) };
            for side in [Side::White, Side::Black] {
                let queen = tables.attack_bb(Piece { kind: PieceType::Queen, side }, square, occupied);
                let rook = tables.attack_bb(Piece { kind: PieceType::Rook, side }, square, occupied);
                let bishop =
                    tables.attack_bb(Piece { kind: PieceType::Bishop, side }, square, occupied);
                assert_eq!(queen, rook | bishop);
            }
        }
    }
}

#[test]
fn two_constructions_give_the_same_tables() {
    let first = Bitboards::new();
    let second = Bitboards::new();
    assert_eq!(first.line_bb, second.line_bb);
    let kinds = [
        PieceType::Pawn,
        PieceType::Knight,
        PieceType::Bishop,
        PieceType::Rook,
        PieceType::Queen,
        PieceType::King,
    ];
    let mut state = 0x5555_AAAA_1234_4321u64;
    for square in 0..64 {
        for _ in 0..20 {
            let occupied = next_random(&mut state);
            for kind in kinds {
                for side in [Side::White, Side::Black] {
                    let piece = Piece { kind, side };
                    assert_eq!(
                        first.attack_bb(piece, square, occupied),
                        second.attack_bb(piece, square, occupied)
                    );
                }
            }
        }
    }
}

#[test]
fn a_clone_answers_as_the_tables_it_was_made_from() {
    let tables = Bitboards::new();
    let copy = tables.clone();
    assert_eq!(tables.line_bb, copy.line_bb);
    for square in 0..64 {
        assert_eq!(
            tables.attack_bb(piece(PieceType::Queen), square, 0x0000_1000_0800_0400),
            copy.attack_bb(piece(PieceType::Queen), square, 0x0000_1000_0800_0400)
        );
    }
}

#[test]
fn queen_attacks_a_single_blocker_two_steps_away_and_nothing_beyond() {
    let tables = Bitboards::new();
    let queen = piece(PieceType::Queen);
    // Queen d4, piece on f6: e5 and f6 are attacked, g7 and h8 are not.
    let attack = tables.attack_bb(queen, 27, 1u64 << 45);
    assert_ne!(attack & (1u64 << 36), 0);
    assert_ne!(attack & (1u64 << 45), 0);
    assert_eq!(attack & (1u64 << 54), 0);
    assert_eq!(attack & (1u64 << 63), 0);
    // Queen d4, piece on d6: d5 and d6 are attacked, d7 and d8 are not.
    let attack = tables.attack_bb(queen, 27, 1u64 << 43);
    assert_ne!(attack & (1u64 << 35), 0);
    assert_ne!(attack & (1u64 << 43), 0);
    assert_eq!(attack & (1u64 << 51), 0);
    assert_eq!(attack & (1u64 << 59), 0);
    // The other rays are as on the empty board.
    assert_eq!(attack | (1u64 << 51) | (1u64 << 59), tables.attack_bb(queen, 27, 0));
}
