use bitboards::bitboards::Bitboards;
use bitboards::defs::PieceType;

fn naive_slide(rook: bool, square: usize, occupied: u64) -> u64 {
    let steps: [(i32, i32); 4] = if rook {
        [(1, 0), (-1, 0), (0, 1), (0, -1)]
    } else {
        [(1, 1), (1, -1), (-1, 1), (-1, -1)]
    };
    let mut attack = 0u64;
    for (dx, dy) in steps {
        let mut x = (square % 8) as i32 + dx;
        let mut y = (square / 8) as i32 + dy;
        while (0..8).contains(&x) && (0..8).contains(&y) {
            let bit = 1u64 << (8 * y + x);
            attack |= bit;
            if occupied & bit != 0 {
                break;
            }
            x += dx;
            y += dy;
        }
    }
    attack
}

fn next_random(state: &mut u64) -> u64 {
    *state ^= *state << 13;
    *state ^= *state >> 7;
    *state ^= *state << 17;
    *state
}

#[test]
fn rook_on_the_empty_board_attacks_its_rank_and_file() {
    assert_eq!(Bitboards::sliding_attack(PieceType::Rook, 0, 0), 0x0101_0101_0101_01FE);
    assert_eq!(Bitboards::sliding_attack(PieceType::Rook, 27, 0), 0x0808_0808_F708_0808);
    assert_eq!(Bitboards::sliding_attack(PieceType::Rook, 63, 0), 0x7F80_8080_8080_8080);
}

#[test]
fn bishop_on_the_empty_board_attacks_its_diagonals() {
    assert_eq!(Bitboards::sliding_attack(PieceType::Bishop, 0, 0), 0x8040_2010_0804_0200);
    assert_eq!(Bitboards::sliding_attack(PieceType::Bishop, 27, 0), 0x8041_2214_0014_2241);
    assert_eq!(Bitboards::sliding_attack(PieceType::Bishop, 2, 0), 0x0000_8040_2011_0A00);
}

#[test]
fn sliding_attack_includes_the_blocker_and_stops_there() {
    // Rook a1, piece on a3: a2 and a3 are attacked, a4 and beyond are not.
    assert_eq!(Bitboards::sliding_attack(PieceType::Rook, 0, 1u64 << 16), 0x0000_0000_0001_01FE);
    // Bishop c1, piece on e3.
    assert_eq!(Bitboards::sliding_attack(PieceType::Bishop, 2, 1u64 << 20), 0x0000_0000_0011_0A00);
    // Rook d4 with pieces on f4, d2 and c4.
    let occupied = (1u64 << 29) | (1u64 << 11) | (1u64 << 26);
    assert_eq!(Bitboards::sliding_attack(PieceType::Rook, 27, occupied), 0x0808_0808_3408_0800);
}

#[test]
fn a_piece_on_the_sliders_own_square_changes_nothing() {
    for square in 0..64 {
        for kind in [PieceType::Rook, PieceType::Bishop] {
            assert_eq!(
                Bitboards::sliding_attack(kind, square, 1u64 << square),
                Bitboards::sliding_attack(kind, square, 0)
            );
        }
    }
}

#[test]
fn a_single_blocker_two_steps_away_is_attacked_and_hides_what_lies_beyond() {
    let steps: [(PieceType, i32, i32); 8] = [
        (PieceType::Rook, 1, 0),
        (PieceType::Rook, -1, 0),
        (PieceType::Rook, 0, 1),
        (PieceType::Rook, 0, -1),
        (PieceType::Bishop, 1, 1),
        (PieceType::Bishop, 1, -1),
        (PieceType::Bishop, -1, 1),
        (PieceType::Bishop, -1, -1),
    ];
    let mut cases = 0;
    for square in 0..64usize {
        for (kind, dx, dy) in steps {
            let file = (square % 8) as i32;
            let rank = (square / 8) as i32;
            let (bx, by) = (file + 2 * dx, rank + 2 * dy);
            if !(0..8).contains(&bx) || !(0..8).contains(&by) {
                continue;
            }
            let blocker = 1u64 << (8 * by + bx);
            let attack = Bitboards::sliding_attack(kind, square, blocker);
            assert_ne!(attack & blocker, 0);
            assert_ne!(attack & (1u64 << (8 * (rank + dy) + file + dx)), 0);
            let (mut x, mut y) = (bx + dx, by + dy);
            while (0..8).contains(&x) && (0..8).contains(&y) {
                assert_eq!(attack & (1u64 << (8 * y + x)), 0);
                x += dx;
                y += dy;
            }
            cases += 1;
        }
    }
    assert_eq!(cases, 4 * 6 * 8 + 4 * 6 * 6);
}

#[test]
fn sliding_attack_agrees_with_a_walk_over_coordinates() {
    let mut state = 0x1234_5678_9ABC_DEF1u64;
    for square in 0..64 {
        for _ in 0..200 {
            let occupied = next_random(&mut state) & next_random(&mut state);
            assert_eq!(
                Bitboards::sliding_attack(PieceType::Rook, square, occupied),
                naive_slide(true, square, occupied)
            );
            assert_eq!(
                Bitboards::sliding_attack(PieceType::Bishop, square, occupied),
                naive_slide(false, square, occupied)
            );
        }
    }
}

#[test]
fn sliding_attack_on_a_full_board_is_the_ring_of_neighbours() {
    assert_eq!(Bitboards::sliding_attack(PieceType::Rook, 27, u64::MAX), 0x0000_0008_1408_0000);
    assert_eq!(Bitboards::sliding_attack(PieceType::Bishop, 27, u64::MAX), 0x0000_0014_0014_0000);
    assert_eq!(Bitboards::sliding_attack(PieceType::Rook, 0, u64::MAX), 0x0000_0000_0000_0102);
    assert_eq!(Bitboards::sliding_attack(PieceType::Bishop, 0, u64::MAX), 0x0000_0000_0000_0200);
}

#[test]
fn occupancy_mask_leaves_out_the_far_end_of_each_ray() {
    assert_eq!(Bitboards::occupancy_mask(PieceType::Rook, 0), 0x0001_0101_0101_017E);
    assert_eq!(Bitboards::occupancy_mask(PieceType::Rook, 27), 0x0008_0808_7608_0800);
    assert_eq!(Bitboards::occupancy_mask(PieceType::Rook, 63), 0x7E80_8080_8080_8000);
    assert_eq!(Bitboards::occupancy_mask(PieceType::Bishop, 0), 0x0040_2010_0804_0200);
    assert_eq!(Bitboards::occupancy_mask(PieceType::Bishop, 27), 0x0040_2214_0014_2200);
    assert_eq!(Bitboards::occupancy_mask(PieceType::Bishop, 2), 0x0000_0040_2010_0A00);
}

#[test]
fn only_the_masked_occupancy_decides_the_attack() {
    let mut state = 0x0F0F_1234_5678_9ABCu64;
    for square in 0..64 {
        for kind in [PieceType::Rook, PieceType::Bishop] {
            let mask = Bitboards::occupancy_mask(kind, square);
            for _ in 0..50 {
                let occupied = next_random(&mut state);
                assert_eq!(
                    Bitboards::sliding_attack(kind, square, occupied),
                    Bitboards::sliding_attack(kind, square, occupied & mask)
                );
            }
        }
    }
}
