use crate::bits::{bit_sum, lemma_popcount_is_bit_sum};
use crate::defs::{on_board, PieceType};
use crate::magics::{magic_spec, Magic};
use crate::masks::{bishop_mask_bits, lemma_mask_bits, rook_mask_bits};
use vstd::prelude::*;

verus! {

/// `number` is a perfect multiplier for `mask`, as far as `x` and `y` show: `mask` holds
/// `size` squares, and where `x` and `y` differ within `mask`, the top `size` bits of their
/// products with `number` differ.
pub open spec fn perfect_for(mask: u64, number: u64, size: u64, x: u64, y: u64) -> bool {
    &&& bit_sum(mask, 64) == size
    &&& ((x & mask).wrapping_mul(number) >> ((64 - size) as u64) == (y & mask).wrapping_mul(
        number,
    ) >> ((64 - size) as u64) ==> x & mask == y & mask)
}

/// A magic record sends different subsets of its mask to different indices.
pub open spec fn injective(magic: Magic) -> bool {
    forall|x: u64, y: u64|
        #[trigger] magic.hash_spec(x) == #[trigger] magic.hash_spec(y) ==> x & magic.mask == y
            & magic.mask
}

/// The multipliers of the rook on the first rank are perfect.
proof fn lemma_rook_rank_1(x: u64, y: u64)
    by (bit_vector)
    ensures
        perfect_for(rook_mask_bits(0), 0x8580_0016_8440_0120, 12, x, y),
        perfect_for(rook_mask_bits(1), 0x0C40_0030_0040_2002, 11, x, y),
        perfect_for(rook_mask_bits(2), 0x0B00_0920_0041_0010, 11, x, y),
        perfect_for(rook_mask_bits(3), 0x8080_0418_0080_1000, 11, x, y),
        perfect_for(rook_mask_bits(4), 0x0200_0420_0810_0200, 11, x, y),
        perfect_for(rook_mask_bits(5), 0x0A00_8830_0400_1A00, 11, x, y),
        perfect_for(rook_mask_bits(6), 0x8080_2100_3200_0080, 11, x, y),
        perfect_for(rook_mask_bits(7), 0x2900_10C0_8022_0500, 12, x, y),
{
}

/// The multipliers of the rook on the second rank are perfect.
proof fn lemma_rook_rank_2(x: u64, y: u64)
    by (bit_vector)
    ensures
        perfect_for(rook_mask_bits(8), 0x4200_8000_4000_2184, 11, x, y),
        perfect_for(rook_mask_bits(9), 0x3001_4040_1000_2000, 10, x, y),
        perfect_for(rook_mask_bits(10), 0x1000_8010_0020_0080, 10, x, y),
        perfect_for(rook_mask_bits(11), 0x4001_8010_0080_8801, 10, x, y),
        perfect_for(rook_mask_bits(12), 0x0513_0008_0100_10AC, 10, x, y),
        perfect_for(rook_mask_bits(13), 0x0001_000C_000E_0900, 10, x, y),
        perfect_for(rook_mask_bits(14), 0x0004_0010_0406_0188, 10, x, y),
        perfect_for(rook_mask_bits(15), 0x0011_0001_9200_4700, 11, x, y),
{
}

/// The multipliers of the rook on the third rank are perfect.
proof fn lemma_rook_rank_3(x: u64, y: u64)
    by (bit_vector)
    ensures
        perfect_for(rook_mask_bits(16), 0x4801_9080_0520_4000, 11, x, y),
        perfect_for(rook_mask_bits(17), 0x2140_0080_2004_8045, 10, x, y),
        perfect_for(rook_mask_bits(18), 0x8102_0600_1480_2040, 10, x, y),
        perfect_for(rook_mask_bits(19), 0x8005_8080_1000_5800, 10, x, y),
        perfect_for(rook_mask_bits(20), 0x0000_8080_0800_0400, 10, x, y),
        perfect_for(rook_mask_bits(21), 0x0400_0801_2024_4010, 10, x, y),
        perfect_for(rook_mask_bits(22), 0x0000_0400_0102_8810, 10, x, y),
        perfect_for(rook_mask_bits(23), 0x1090_0200_0320_8044, 11, x, y),
{
}

/// The multipliers of the rook on the fourth rank are perfect.
proof fn lemma_rook_rank_4(x: u64, y: u64)
    by (bit_vector)
    ensures
        perfect_for(rook_mask_bits(24), 0x2184_C000_8007_E58C, 11, x, y),
        perfect_for(rook_mask_bits(25), 0x0080_8109_0040_0420, 10, x, y),
        perfect_for(rook_mask_bits(26), 0x1084_2012_0041_8200, 10, x, y),
        perfect_for(rook_mask_bits(27), 0x8010_0800_8050_0080, 10, x, y),
        perfect_for(rook_mask_bits(28), 0x3041_0D01_0010_4800, 10, x, y),
        perfect_for(rook_mask_bits(29), 0x4102_0002_0008_1004, 10, x, y),
        perfect_for(rook_mask_bits(30), 0x000A_00A2_0048_0904, 10, x, y),
        perfect_for(rook_mask_bits(31), 0x8000_1082_0000_4413, 11, x, y),
{
}

/// The multipliers of the rook on the fifth rank are perfect.
proof fn lemma_rook_rank_5(x: u64, y: u64)
    by (bit_vector)
    ensures
        perfect_for(rook_mask_bits(32), 0x0200_2040_0080_0180, 11, x, y),
        perfect_for(rook_mask_bits(33), 0x0404_2010_0140_024B, 10, x, y),
        perfect_for(rook_mask_bits(34), 0xD010_8010_0080_6000, 10, x, y),
        perfect_for(rook_mask_bits(35), 0x4000_8008_0080_1005, 10, x, y),
        perfect_for(rook_mask_bits(36), 0x1890_1801_8080_1C00, 10, x, y),
        perfect_for(rook_mask_bits(37), 0x000A_0011_0600_0408, 10, x, y),
        perfect_for(rook_mask_bits(38), 0xA000_0308_C400_0230, 10, x, y),
        perfect_for(rook_mask_bits(39), 0x1088_8144_0A00_0085, 11, x, y),
{
}

/// The multipliers of the rook on the sixth rank are perfect.
proof fn lemma_rook_rank_6(x: u64, y: u64)
    by (bit_vector)
    ensures
        perfect_for(rook_mask_bits(40), 0x0842_4014_A080_8000, 11, x, y),
        perfect_for(rook_mask_bits(41), 0xA120_1000_2840_4000, 10, x, y),
        perfect_for(rook_mask_bits(42), 0x8483_0040_A009_0010, 10, x, y),
        perfect_for(rook_mask_bits(43), 0x2002_0800_1000_8080, 10, x, y),
        perfect_for(rook_mask_bits(44), 0x0844_0010_0801_0100, 10, x, y),
        perfect_for(rook_mask_bits(45), 0x0002_0088_1062_0044, 10, x, y),
        perfect_for(rook_mask_bits(46), 0x1811_9142_3824_0030, 10, x, y),
        perfect_for(rook_mask_bits(47), 0x0670_9045_9902_0004, 11, x, y),
{
}

/// The multipliers of the rook on the seventh rank are perfect.
proof fn lemma_rook_rank_7(x: u64, y: u64)
    by (bit_vector)
    ensures
        perfect_for(rook_mask_bits(48), 0x1022_0100_6080_4200, 11, x, y),
        perfect_for(rook_mask_bits(49), 0x2140_0841_0180_2900, 10, x, y),
        perfect_for(rook_mask_bits(50), 0x0825_4204_9080_2200, 10, x, y),
        perfect_for(rook_mask_bits(51), 0x0040_2112_0008_4200, 10, x, y),
        perfect_for(rook_mask_bits(52), 0x0000_0500_9128_0100, 10, x, y),
        perfect_for(rook_mask_bits(53), 0x0045_8104_0006_0080, 10, x, y),
        perfect_for(rook_mask_bits(54), 0x002B_0044_0A00_0100, 10, x, y),
        perfect_for(rook_mask_bits(55), 0x4400_8281_0C00_6200, 11, x, y),
{
}

/// The multipliers of the rook on the eighth rank are perfect.
proof fn lemma_rook_rank_8(x: u64, y: u64)
    by (bit_vector)
    ensures
        perfect_for(rook_mask_bits(56), 0x2002_8042_3200_2102, 12, x, y),
        perfect_for(rook_mask_bits(57), 0x2082_1100_8340_0465, 11, x, y),
        perfect_for(rook_mask_bits(58), 0x8200_2000_1019_0045, 11, x, y),
        perfect_for(rook_mask_bits(59), 0xD80A_2821_0090_004D, 11, x, y),
        perfect_for(rook_mask_bits(60), 0x4002_0084_7028_2012, 11, x, y),
        perfect_for(rook_mask_bits(61), 0x406E_0030_84B4_880E, 11, x, y),
        perfect_for(rook_mask_bits(62), 0x0842_0490_0208_0104, 11, x, y),
        perfect_for(rook_mask_bits(63), 0xC00D_0F53_0324_0182, 12, x, y),
{
}

/// The multipliers of the bishop on the first rank are perfect.
proof fn lemma_bishop_rank_1(x: u64, y: u64)
    by (bit_vector)
    ensures
        perfect_for(bishop_mask_bits(0), 0x0010_0C05_0800_2100, 6, x, y),
        perfect_for(bishop_mask_bits(1), 0x0010_0403_0410_2EC1, 5, x, y),
        perfect_for(bishop_mask_bits(2), 0x0010_0112_0924_0008, 5, x, y),
        perfect_for(bishop_mask_bits(3), 0x8004_0400_8400_1800, 5, x, y),
        perfect_for(bishop_mask_bits(4), 0x804E_0610_0408_0029, 5, x, y),
        perfect_for(bishop_mask_bits(5), 0x3082_0510_0808_0000, 5, x, y),
        perfect_for(bishop_mask_bits(6), 0x00E4_0884_8420_00E3, 5, x, y),
        perfect_for(bishop_mask_bits(7), 0xEA4B_0042_102B_4800, 6, x, y),
{
}

/// The multipliers of the bishop on the second rank are perfect.
proof fn lemma_bishop_rank_2(x: u64, y: u64)
    by (bit_vector)
    ensures
        perfect_for(bishop_mask_bits(8), 0x0420_4008_1124_2280, 5, x, y),
        perfect_for(bishop_mask_bits(9), 0x0614_0410_0404_4080, 5, x, y),
        perfect_for(bishop_mask_bits(10), 0x0008_2122_4082_0081, 5, x, y),
        perfect_for(bishop_mask_bits(11), 0x3000_0404_0480_0000, 5, x, y),
        perfect_for(bishop_mask_bits(12), 0x02C4_0414_E000_4010, 5, x, y),
        perfect_for(bishop_mask_bits(13), 0x0080_1090_0420_6040, 5, x, y),
        perfect_for(bishop_mask_bits(14), 0x8200_10C2_3030_3800, 5, x, y),
        perfect_for(bishop_mask_bits(15), 0x4008_0044_0209_1004, 5, x, y),
{
}

/// The multipliers of the bishop on the third rank are perfect.
proof fn lemma_bishop_rank_3(x: u64, y: u64)
    by (bit_vector)
    ensures
        perfect_for(bishop_mask_bits(16), 0x0248_1440_1063_A204, 5, x, y),
        perfect_for(bishop_mask_bits(17), 0x0088_8160_2301_0A00, 5, x, y),
        perfect_for(bishop_mask_bits(18), 0x0046_0030_0780_D106, 7, x, y),
        perfect_for(bishop_mask_bits(19), 0x0800_8208_0200_C400, 7, x, y),
        perfect_for(bishop_mask_bits(20), 0x80A4_0406_0211_0200, 7, x, y),
        perfect_for(bishop_mask_bits(21), 0x5D0A_00A1_009A_0110, 7, x, y),
        perfect_for(bishop_mask_bits(22), 0x1102_8F22_0803_4820, 5, x, y),
        perfect_for(bishop_mask_bits(23), 0x082A_0093_0080_8440, 5, x, y),
{
}

/// The multipliers of the bishop on the fourth rank are perfect.
proof fn lemma_bishop_rank_4(x: u64, y: u64)
    by (bit_vector)
    ensures
        perfect_for(bishop_mask_bits(24), 0x9005_0C18_9020_1840, 5, x, y),
        perfect_for(bishop_mask_bits(25), 0x0010_0405_7001_AA00, 5, x, y),
        perfect_for(bishop_mask_bits(26), 0x1118_0404_1800_4810, 7, x, y),
        perfect_for(bishop_mask_bits(27), 0x0004_0040_8401_0042, 9, x, y),
        perfect_for(bishop_mask_bits(28), 0x1482_4880_2C00_2008, 9, x, y),
        perfect_for(bishop_mask_bits(29), 0x0048_0200_0420_8410, 7, x, y),
        perfect_for(bishop_mask_bits(30), 0x0004_2040_1188_0400, 5, x, y),
        perfect_for(bishop_mask_bits(31), 0x5812_0200_0084_8080, 5, x, y),
{
}

/// The multipliers of the bishop on the fifth rank are perfect.
proof fn lemma_bishop_rank_5(x: u64, y: u64)
    by (bit_vector)
    ensures
        perfect_for(bishop_mask_bits(32), 0x4250_5090_110C_940C, 5, x, y),
        perfect_for(bishop_mask_bits(33), 0x0884_0A20_9C28_5110, 5, x, y),
        perfect_for(bishop_mask_bits(34), 0x00D0_2808_0484_0020, 7, x, y),
        perfect_for(bishop_mask_bits(35), 0x8500_3008_2084_0400, 9, x, y),
        perfect_for(bishop_mask_bits(36), 0x1520_068C_0080_8020, 9, x, y),
        perfect_for(bishop_mask_bits(37), 0x4020_1805_1100_8040, 7, x, y),
        perfect_for(bishop_mask_bits(38), 0x0001_0101_0404_0420, 5, x, y),
        perfect_for(bishop_mask_bits(39), 0x0068_4049_0000_4101, 5, x, y),
{
}

/// The multipliers of the bishop on the sixth rank are perfect.
proof fn lemma_bishop_rank_6(x: u64, y: u64)
    by (bit_vector)
    ensures
        perfect_for(bishop_mask_bits(40), 0x0632_8414_4084_2002, 5, x, y),
        perfect_for(bishop_mask_bits(41), 0x0041_2410_0201_8422, 5, x, y),
        perfect_for(bishop_mask_bits(42), 0x1C81_9402_0800_0102, 7, x, y),
        perfect_for(bishop_mask_bits(43), 0x4008_48A0_5800_0100, 7, x, y),
        perfect_for(bishop_mask_bits(44), 0x1410_0801_0040_0408, 7, x, y),
        perfect_for(bishop_mask_bits(45), 0x1409_0531_0600_0501, 7, x, y),
        perfect_for(bishop_mask_bits(46), 0x0012_0802_1400_0280, 5, x, y),
        perfect_for(bishop_mask_bits(47), 0x2004_C100_4201_0101, 5, x, y),
{
}

/// The multipliers of the bishop on the seventh rank are perfect.
proof fn lemma_bishop_rank_7(x: u64, y: u64)
    by (bit_vector)
    ensures
        perfect_for(bishop_mask_bits(48), 0xA117_0190_7008_08A4, 5, x, y),
        perfect_for(bishop_mask_bits(49), 0x0000_8088_88A0_0000, 5, x, y),
        perfect_for(bishop_mask_bits(50), 0x0288_1100_8090_4040, 5, x, y),
        perfect_for(bishop_mask_bits(51), 0xB400_8358_420E_1014, 5, x, y),
        perfect_for(bishop_mask_bits(52), 0x4616_0010_2022_0301, 5, x, y),
        perfect_for(bishop_mask_bits(53), 0x0001_48A1_1404_2016, 5, x, y),
        perfect_for(bishop_mask_bits(54), 0x8012_1010_0080_8400, 5, x, y),
        perfect_for(bishop_mask_bits(55), 0x1018_1821_8402_4041, 5, x, y),
{
}

/// The multipliers of the bishop on the eighth rank are perfect.
proof fn lemma_bishop_rank_8(x: u64, y: u64)
    by (bit_vector)
    ensures
        perfect_for(bishop_mask_bits(56), 0x3005_0108_028A_0840, 6, x, y),
        perfect_for(bishop_mask_bits(57), 0x8090_4022_0930_2800, 5, x, y),
        perfect_for(bishop_mask_bits(58), 0x8110_1022_0209_0C20, 5, x, y),
        perfect_for(bishop_mask_bits(59), 0x4010_0040_0142_0201, 5, x, y),
        perfect_for(bishop_mask_bits(60), 0x5180_0020_5212_0A00, 5, x, y),
        perfect_for(bishop_mask_bits(61), 0x00A0_0040_0604_1100, 5, x, y),
        perfect_for(bishop_mask_bits(62), 0x9400_49A0_3800_8308, 5, x, y),
        perfect_for(bishop_mask_bits(63), 0x8090_0202_0C04_001C, 6, x, y),
{
}

proof fn lemma_rook_injective(s: int, offset: int)
    requires
        on_board(s),
    ensures
        injective(magic_spec(PieceType::Rook, s, offset)),
{
    let magic = magic_spec(PieceType::Rook, s, offset);
    lemma_mask_bits(PieceType::Rook, s);
    lemma_popcount_is_bit_sum(magic.mask);
    assert forall|x: u64, y: u64| #[trigger]
        magic.hash_spec(x) == #[trigger] magic.hash_spec(y) implies x & magic.mask == y
        & magic.mask by {
        if s / 8 == 0 {
            lemma_rook_rank_1(x, y);
            assert(s == 0 || s == 1 || s == 2 || s == 3
                || s == 4 || s == 5 || s == 6 || s == 7);
        } else if s / 8 == 1 {
            lemma_rook_rank_2(x, y);
            assert(s == 8 || s == 9 || s == 10 || s == 11
                || s == 12 || s == 13 || s == 14 || s == 15);
        } else if s / 8 == 2 {
            lemma_rook_rank_3(x, y);
            assert(s == 16 || s == 17 || s == 18 || s == 19
                || s == 20 || s == 21 || s == 22 || s == 23);
        } else if s / 8 == 3 {
            lemma_rook_rank_4(x, y);
            assert(s == 24 || s == 25 || s == 26 || s == 27
                || s == 28 || s == 29 || s == 30 || s == 31);
        } else if s / 8 == 4 {
            lemma_rook_rank_5(x, y);
            assert(s == 32 || s == 33 || s == 34 || s == 35
                || s == 36 || s == 37 || s == 38 || s == 39);
        } else if s / 8 == 5 {
            lemma_rook_rank_6(x, y);
            assert(s == 40 || s == 41 || s == 42 || s == 43
                || s == 44 || s == 45 || s == 46 || s == 47);
        } else if s / 8 == 6 {
            lemma_rook_rank_7(x, y);
            assert(s == 48 || s == 49 || s == 50 || s == 51
                || s == 52 || s == 53 || s == 54 || s == 55);
        } else if s / 8 == 7 {
            lemma_rook_rank_8(x, y);
            assert(s == 56 || s == 57 || s == 58 || s == 59
                || s == 60 || s == 61 || s == 62 || s == 63);
        }
    }
}

proof fn lemma_bishop_injective(s: int, offset: int)
    requires
        on_board(s),
    ensures
        injective(magic_spec(PieceType::Bishop, s, offset)),
{
    let magic = magic_spec(PieceType::Bishop, s, offset);
    lemma_mask_bits(PieceType::Bishop, s);
    lemma_popcount_is_bit_sum(magic.mask);
    assert forall|x: u64, y: u64| #[trigger]
        magic.hash_spec(x) == #[trigger] magic.hash_spec(y) implies x & magic.mask == y
        & magic.mask by {
        if s / 8 == 0 {
            lemma_bishop_rank_1(x, y);
            assert(s == 0 || s == 1 || s == 2 || s == 3
                || s == 4 || s == 5 || s == 6 || s == 7);
        } else if s / 8 == 1 {
            lemma_bishop_rank_2(x, y);
            assert(s == 8 || s == 9 || s == 10 || s == 11
                || s == 12 || s == 13 || s == 14 || s == 15);
        } else if s / 8 == 2 {
            lemma_bishop_rank_3(x, y);
            assert(s == 16 || s == 17 || s == 18 || s == 19
                || s == 20 || s == 21 || s == 22 || s == 23);
        } else if s / 8 == 3 {
            lemma_bishop_rank_4(x, y);
            assert(s == 24 || s == 25 || s == 26 || s == 27
                || s == 28 || s == 29 || s == 30 || s == 31);
        } else if s / 8 == 4 {
            lemma_bishop_rank_5(x, y);
            assert(s == 32 || s == 33 || s == 34 || s == 35
                || s == 36 || s == 37 || s == 38 || s == 39);
        } else if s / 8 == 5 {
            lemma_bishop_rank_6(x, y);
            assert(s == 40 || s == 41 || s == 42 || s == 43
                || s == 44 || s == 45 || s == 46 || s == 47);
        } else if s / 8 == 6 {
            lemma_bishop_rank_7(x, y);
            assert(s == 48 || s == 49 || s == 50 || s == 51
                || s == 52 || s == 53 || s == 54 || s == 55);
        } else if s / 8 == 7 {
            lemma_bishop_rank_8(x, y);
            assert(s == 56 || s == 57 || s == 58 || s == 59
                || s == 60 || s == 61 || s == 62 || s == 63);
        }
    }
}

/// The magic numbers are perfect: the record of each square sends different subsets of its
/// mask to different indices.
pub proof fn lemma_magic_injective(kind: PieceType, s: int, offset: int)
    requires
        on_board(s),
        kind == PieceType::Rook || kind == PieceType::Bishop,
    ensures
        injective(magic_spec(kind, s, offset)),
{
    if kind == PieceType::Rook {
        lemma_rook_injective(s, offset);
    } else {
        lemma_bishop_injective(s, offset);
    }
}

} // verus!
