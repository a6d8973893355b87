use bitboards::bitboards::Bitboards;

const SEPARATOR: &str = "+---+---+---+---+---+---+---+---+";

#[test]
fn four_corners_render_as_four_marks_in_the_corner_cells() {
    let corners = 1u64 | (1u64 << 7) | (1u64 << 56) | (1u64 << 63);
    let text = Bitboards::pretty(corners);
    assert_eq!(text.matches('X').count(), 4);
    let lines: Vec<&str> = text.lines().collect();
    assert_eq!(lines.len(), 18);
    assert_eq!(lines[0], "  A   B   C   D   E   F   G   H  ");
    assert_eq!(lines[2], "| X |   |   |   |   |   |   | X | 8");
    assert_eq!(lines[16], "| X |   |   |   |   |   |   | X | 1");
    for rank_line in [4, 6, 8, 10, 12, 14] {
        assert!(lines[rank_line].starts_with("|   |   |   |   |   |   |   |   | "));
    }
    for separator in [1, 3, 5, 7, 9, 11, 13, 15, 17] {
        assert_eq!(lines[separator], SEPARATOR);
    }
}

#[test]
fn empty_board_renders_as_the_bare_grid() {
    let mut expected = String::from("  A   B   C   D   E   F   G   H  \n");
    expected.push_str(SEPARATOR);
    expected.push('\n');
    for rank in (1..=8).rev() {
        expected.push_str(&format!("|   |   |   |   |   |   |   |   | {}\n", rank));
        expected.push_str(SEPARATOR);
        expected.push('\n');
    }
    assert_eq!(Bitboards::pretty(0), expected);
}

#[test]
fn a_square_renders_in_the_line_of_its_rank_and_the_column_of_its_file() {
    // c2 is square 10: file C, rank 2.
    let text = Bitboards::pretty(1u64 << 10);
    let lines: Vec<&str> = text.lines().collect();
    assert_eq!(lines[14], "|   |   | X |   |   |   |   |   | 2");
    assert_eq!(text.matches('X').count(), 1);
    // h8 is the last cell of the first rank line, a1 the first cell of the last.
    let text = Bitboards::pretty(1u64 << 63);
    assert_eq!(text.lines().nth(2), Some("|   |   |   |   |   |   |   | X | 8"));
    let text = Bitboards::pretty(1);
    assert_eq!(text.lines().nth(16), Some("| X |   |   |   |   |   |   |   | 1"));
}

#[test]
fn every_set_bit_renders_as_one_mark() {
    assert_eq!(Bitboards::pretty(u64::MAX).matches('X').count(), 64);
    assert_eq!(Bitboards::pretty(0x0000_1422_0022_1400).matches('X').count(), 8);
    let text = Bitboards::pretty(0x0000_0000_0000_00FF);
    assert_eq!(text.lines().nth(16), Some("| X | X | X | X | X | X | X | X | 1"));
    assert!(text.ends_with("| 1\n+---+---+---+---+---+---+---+---+\n"));
}
