use bitboards::bitboards::Bitboards;

fn on_one_line(a: usize, b: usize, c: usize) -> bool {
    let (fa, ra) = ((a % 8) as i32, (a / 8) as i32);
    let (fb, rb) = ((b % 8) as i32, (b / 8) as i32);
    let (fc, rc) = ((c % 8) as i32, (c / 8) as i32);
    (ra == rb && rb == rc)
        || (fa == fb && fb == fc)
        || (fa - ra == fb - rb && fb - rb == fc - rc)
        || (fa + ra == fb + rb && fb + rb == fc + rc)
}

#[test]
fn aligned_does_not_depend_on_the_order_of_the_first_two_squares() {
    let tables = Bitboards::new();
    for a in 0..64 {
        for b in 0..64 {
            for c in 0..64 {
                assert_eq!(tables.aligned(a, b, c), tables.aligned(b, a, c));
            }
        }
    }
}

#[test]
fn aligned_holds_exactly_for_squares_on_one_line() {
    let tables = Bitboards::new();
    for a in 0..64 {
        for b in 0..64 {
            for c in 0..64 {
                let expected = on_one_line(a, b, c);
                assert_eq!(tables.aligned(a, b, c), expected);
                assert_eq!(tables.aligned(a, c, b), expected);
                assert_eq!(tables.aligned(c, b, a), expected);
            }
        }
    }
}

#[test]
fn aligned_on_a_rank_a_file_and_a_diagonal() {
    let tables = Bitboards::new();
    // a1, d1, h1.
    assert!(tables.aligned(0, 3, 7));
    assert!(tables.aligned(7, 0, 3));
    // a1, a4, a8.
    assert!(tables.aligned(0, 24, 56));
    // a1, d4, h8.
    assert!(tables.aligned(0, 27, 63));
    assert!(tables.aligned(63, 0, 27));
    // h1, e4, a8.
    assert!(tables.aligned(7, 28, 56));
    // a1, b3, c2 share no line, in any order.
    assert!(!tables.aligned(0, 17, 10));
    assert!(!tables.aligned(0, 10, 17));
    assert!(!tables.aligned(17, 10, 0));
    // a1 and b3 share no line, so nothing is in line with them, not even the two themselves.
    assert!(!tables.aligned(0, 17, 1));
    assert!(!tables.aligned(0, 17, 0));
    assert!(!tables.aligned(0, 17, 17));
}

#[test]
fn a_square_is_in_line_with_itself_along_each_of_its_lines() {
    let tables = Bitboards::new();
    assert!(tables.aligned(27, 27, 27));
    assert!(tables.aligned(27, 27, 24));
    assert!(tables.aligned(27, 27, 59));
    assert!(tables.aligned(27, 27, 0));
    assert!(tables.aligned(27, 27, 48));
    assert!(!tables.aligned(27, 27, 10));
    assert_eq!(tables.line_bb[27][27], 0x8849_2A1C_FF1C_2A49);
}

#[test]
fn line_table_holds_whole_lines_or_nothing() {
    let tables = Bitboards::new();
    assert_eq!(tables.line_bb[0][63], 0x8040_2010_0804_0201);
    assert_eq!(tables.line_bb[9][18], 0x8040_2010_0804_0201);
    assert_eq!(tables.line_bb[7][56], 0x0102_0408_1020_4080);
    assert_eq!(tables.line_bb[0][7], 0x0000_0000_0000_00FF);
    assert_eq!(tables.line_bb[3][59], 0x0808_0808_0808_0808);
    assert_eq!(tables.line_bb[2][16], 0x0000_0000_0001_0204);
    assert_eq!(tables.line_bb[0][17], 0);
    assert_eq!(tables.line_bb[12][29], 0);
    for a in 0..64 {
        for b in 0..64 {
            assert_eq!(tables.line_bb[a][b], tables.line_bb[b][a]);
            assert_eq!(tables.line_bb[a][b], Bitboards::line_between(a, b));
            let mut expected = 0u64;
            for c in 0..64 {
                if on_one_line(a, b, c) {
                    expected |= 1u64 << c;
                }
            }
            assert_eq!(tables.line_bb[a][b], expected);
        }
    }
}
