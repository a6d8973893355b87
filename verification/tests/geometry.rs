use bitboards::bitboards::Bitboards;
use bitboards::defs::{
    color_of_piece, distance, file_bb, rank_bb, square_bb, square_of, type_of_piece, Piece,
    PieceType, Side, FILE_ABB, FILE_HBB, RANK_1BB, RANK_8BB,
};

#[test]
fn square_bb_sets_one_bit() {
    assert_eq!(square_bb(0), 1);
    assert_eq!(square_bb(27), 0x0000_0000_0800_0000);
    assert_eq!(square_bb(63), 0x8000_0000_0000_0000);
}

#[test]
fn square_of_is_file_major_within_rank() {
    assert_eq!(square_of(0, 0), 0);
    assert_eq!(square_of(7, 0), 7);
    assert_eq!(square_of(0, 1), 8);
    assert_eq!(square_of(3, 3), 27);
    assert_eq!(square_of(7, 7), 63);
}

#[test]
fn distance_is_the_larger_of_file_and_rank_difference() {
    assert_eq!(distance(0, 0), 0);
    assert_eq!(distance(0, 7), 7);
    assert_eq!(distance(0, 63), 7);
    assert_eq!(distance(0, 9), 1);
    assert_eq!(distance(27, 10), 2);
    assert_eq!(distance(7, 8), 7);
    assert_eq!(distance(12, 52), 5);
    assert_eq!(distance(52, 12), 5);
}

#[test]
fn rank_and_file_masks_hold_the_whole_line() {
    assert_eq!(rank_bb(0), RANK_1BB);
    assert_eq!(rank_bb(7), RANK_1BB);
    assert_eq!(rank_bb(27), 0x0000_0000_FF00_0000);
    assert_eq!(rank_bb(60), RANK_8BB);
    assert_eq!(file_bb(0), FILE_ABB);
    assert_eq!(file_bb(56), FILE_ABB);
    assert_eq!(file_bb(27), 0x0808_0808_0808_0808);
    assert_eq!(file_bb(15), FILE_HBB);
}

#[test]
fn piece_accessors_return_the_parts() {
    let piece = Piece { kind: PieceType::Queen, side: Side::Black };
    assert_eq!(type_of_piece(piece), PieceType::Queen);
    assert_eq!(color_of_piece(piece), Side::Black);
}

#[test]
fn safe_destination_gives_the_target_square() {
    assert_eq!(Bitboards::safe_destination(27, 8), 1u64 << 35);
    assert_eq!(Bitboards::safe_destination(27, -9), 1u64 << 18);
    assert_eq!(Bitboards::safe_destination(27, 17), 1u64 << 44);
    assert_eq!(Bitboards::safe_destination(0, 1), 1u64 << 1);
    assert_eq!(Bitboards::safe_destination(62, 1), 1u64 << 63);
    assert_eq!(Bitboards::safe_destination(1, -1), 1);
}

#[test]
fn safe_destination_is_empty_off_the_board() {
    assert_eq!(Bitboards::safe_destination(0, -1), 0);
    assert_eq!(Bitboards::safe_destination(0, -8), 0);
    assert_eq!(Bitboards::safe_destination(63, 1), 0);
    assert_eq!(Bitboards::safe_destination(63, 8), 0);
    assert_eq!(Bitboards::safe_destination(60, 17), 0);
    assert_eq!(Bitboards::safe_destination(3, -17), 0);
}

#[test]
fn safe_destination_is_empty_where_a_step_wraps_round_an_edge() {
    // h1 + 1 is a2 by number, seven files away.
    assert_eq!(Bitboards::safe_destination(7, 1), 0);
    // a2 - 1 is h1.
    assert_eq!(Bitboards::safe_destination(8, -1), 0);
    // a2 + 7 is h2, a4 - 9 is h2.
    assert_eq!(Bitboards::safe_destination(8, 7), 0);
    assert_eq!(Bitboards::safe_destination(24, -9), 0);
    // A knight step from g1 that lands on a3 by number.
    assert_eq!(Bitboards::safe_destination(6, 10), 0);
    assert_eq!(Bitboards::safe_destination(15, 10), 0);
    assert_eq!(Bitboards::safe_destination(16, -10), 0);
}

#[test]
fn safe_destination_is_empty_more_than_two_king_steps_away() {
    assert_eq!(Bitboards::safe_destination(0, 24), 0);
    assert_eq!(Bitboards::safe_destination(0, 3), 0);
    assert_eq!(Bitboards::safe_destination(0, 27), 0);
    assert_eq!(Bitboards::safe_destination(0, 16), 1u64 << 16);
    assert_eq!(Bitboards::safe_destination(0, 18), 1u64 << 18);
    assert_eq!(Bitboards::safe_destination(0, 0), 1);
}

#[test]
fn safe_destination_takes_any_step() {
    assert_eq!(Bitboards::safe_destination(5, 1000), 0);
    assert_eq!(Bitboards::safe_destination(5, -1000), 0);
    assert_eq!(Bitboards::safe_destination(63, isize::MAX), 0);
    assert_eq!(Bitboards::safe_destination(0, isize::MIN), 0);
    assert_eq!(Bitboards::safe_destination(0, 64), 0);
    assert_eq!(Bitboards::safe_destination(63, -64), 0);
}
