use bitboards::bitboards::Bitboards;
use bitboards::defs::{Piece, PieceType, Side};

fn piece(kind: PieceType, side: Side) -> Piece {
    Piece { kind, side }
}

fn offsets_attack(square: usize, offsets: &[(i32, i32)]) -> u64 {
    let mut attack = 0u64;
    for (dx, dy) in offsets {
        let x = (square % 8) as i32 + dx;
        let y = (square / 8) as i32 + dy;
        if (0..8).contains(&x) && (0..8).contains(&y) {
            attack |= 1u64 << (8 * y + x);
        }
    }
    attack
}

#[test]
fn knight_in_a_corner_attacks_two_squares() {
    let tables = Bitboards::new();
    let attack = tables.attack_bb(piece(PieceType::Knight, Side::White), 0, 0);
    assert_eq!(attack, (1u64 << 10) | (1u64 << 17));
    assert_eq!(attack.count_ones(), 2);
    for corner in [7, 56, 63] {
        let attack = tables.attack_bb(piece(PieceType::Knight, Side::Black), corner, 0);
        assert_eq!(attack.count_ones(), 2);
    }
}

#[test]
fn knight_in_the_centre_attacks_eight_squares() {
    let tables = Bitboards::new();
    let attack = tables.attack_bb(piece(PieceType::Knight, Side::White), 27, 0);
    assert_eq!(attack, 0x0000_1422_0022_1400);
    assert_eq!(attack.count_ones(), 8);
}

#[test]
fn knight_attacks_agree_with_the_eight_jumps() {
    let tables = Bitboards::new();
    let jumps = [(1, 2), (2, 1), (-1, 2), (-2, 1), (1, -2), (2, -1), (-1, -2), (-2, -1)];
    for square in 0..64 {
        let expected = offsets_attack(square, &jumps);
        assert_eq!(Bitboards::knight_attack(square), expected);
        assert_eq!(tables.attack_bb(piece(PieceType::Knight, Side::White), square, 0), expected);
    }
}

#[test]
fn king_attacks_the_squares_next_to_it() {
    let tables = Bitboards::new();
    let king = piece(PieceType::King, Side::White);
    assert_eq!(tables.attack_bb(king, 0, 0), 0x0000_0000_0000_0302);
    assert_eq!(tables.attack_bb(king, 27, 0), 0x0000_001C_141C_0000);
    assert_eq!(tables.attack_bb(king, 63, 0), 0x40C0_0000_0000_0000);
    let steps = [(1, 0), (1, 1), (0, 1), (-1, 1), (-1, 0), (-1, -1), (0, -1), (1, -1)];
    for square in 0..64 {
        let expected = offsets_attack(square, &steps);
        assert_eq!(Bitboards::king_attack(square), expected);
        assert_eq!(tables.attack_bb(king, square, 0), expected);
    }
}

#[test]
fn white_pawns_attack_up_and_black_pawns_attack_down() {
    let tables = Bitboards::new();
    let white = piece(PieceType::Pawn, Side::White);
    let black = piece(PieceType::Pawn, Side::Black);
    assert_eq!(tables.attack_bb(white, 27, 0), 0x0000_0014_0000_0000);
    assert_eq!(tables.attack_bb(black, 27, 0), 0x0000_0000_0014_0000);
    // On the A-file and the H-file one diagonal is off the board.
    assert_eq!(tables.attack_bb(white, 8, 0), 0x0000_0000_0002_0000);
    assert_eq!(tables.attack_bb(black, 15, 0), 0x0000_0000_0000_0040);
    assert_eq!(Bitboards::pawn_attack(Side::White, 27), 0x0000_0014_0000_0000);
    assert_eq!(Bitboards::pawn_attack(Side::Black, 27), 0x0000_0000_0014_0000);
}

#[test]
fn pawn_attacks_of_the_two_sides_are_disjoint() {
    let tables = Bitboards::new();
    let white = piece(PieceType::Pawn, Side::White);
    let black = piece(PieceType::Pawn, Side::Black);
    for square in 0..64usize {
        let up = tables.attack_bb(white, square, 0);
        let down = tables.attack_bb(black, square, 0);
        assert_eq!(up & down, 0);
        assert_eq!(up, offsets_attack(square, &[(1, 1), (-1, 1)]));
        assert_eq!(down, offsets_attack(square, &[(1, -1), (-1, -1)]));
        if square / 8 == 7 {
            assert_eq!(up, 0);
        } else {
            assert_ne!(up, 0);
            assert_eq!(up & !(0xFFu64 << (8 * (square / 8 + 1))), 0);
        }
        if square / 8 == 0 {
            assert_eq!(down, 0);
        } else {
            assert_ne!(down, 0);
            assert_eq!(down & !(0xFFu64 << (8 * (square / 8 - 1))), 0);
        }
    }
}

#[test]
fn occupancy_does_not_change_pawn_knight_and_king() {
    let tables = Bitboards::new();
    for square in 0..64 {
        for kind in [PieceType::Pawn, PieceType::Knight, PieceType::King] {
            for side in [Side::White, Side::Black] {
                assert_eq!(
                    tables.attack_bb(piece(kind, side), square, u64::MAX),
                    tables.attack_bb(piece(kind, side), square, 0)
                );
            }
        }
    }
}
