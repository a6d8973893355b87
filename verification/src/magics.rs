use crate::bits::{popcount, Bitboard};
use crate::defs::{on_board, PieceType};
use crate::masks::{lemma_relevant_mask_size, relevant_mask};
use vstd::prelude::*;

verus! {

/// The perfect-hash record of one square for one sliding piece kind.
#[derive(Clone, Copy, Debug)]
pub struct Magic {
    /// The squares whose occupancy decides the attack set.
    pub mask: Bitboard,
    /// The multiplier that spreads the masked occupancy over the high bits.
    pub number: u64,
    /// The right shift that brings those high bits down: 64 minus the size of `mask`.
    pub shift: u8,
    /// Where this square's entries start in the shared attack table.
    pub offset: u64,
}

/// For each square, a multiplier that sends the subsets of the rook's mask to distinct indices.
pub const ROOK_MAGIC_NUMBERS: [u64; 64] = [
    0x8580_0016_8440_0120,
    0x0C40_0030_0040_2002,
    0x0B00_0920_0041_0010,
    0x8080_0418_0080_1000,
    0x0200_0420_0810_0200,
    0x0A00_8830_0400_1A00,
    0x8080_2100_3200_0080,
    0x2900_10C0_8022_0500,
    0x4200_8000_4000_2184,
    0x3001_4040_1000_2000,
    0x1000_8010_0020_0080,
    0x4001_8010_0080_8801,
    0x0513_0008_0100_10AC,
    0x0001_000C_000E_0900,
    0x0004_0010_0406_0188,
    0x0011_0001_9200_4700,
    0x4801_9080_0520_4000,
    0x2140_0080_2004_8045,
    0x8102_0600_1480_2040,
    0x8005_8080_1000_5800,
    0x0000_8080_0800_0400,
    0x0400_0801_2024_4010,
    0x0000_0400_0102_8810,
    0x1090_0200_0320_8044,
    0x2184_C000_8007_E58C,
    0x0080_8109_0040_0420,
    0x1084_2012_0041_8200,
    0x8010_0800_8050_0080,
    0x3041_0D01_0010_4800,
    0x4102_0002_0008_1004,
    0x000A_00A2_0048_0904,
    0x8000_1082_0000_4413,
    0x0200_2040_0080_0180,
    0x0404_2010_0140_024B,
    0xD010_8010_0080_6000,
    0x4000_8008_0080_1005,
    0x1890_1801_8080_1C00,
    0x000A_0011_0600_0408,
    0xA000_0308_C400_0230,
    0x1088_8144_0A00_0085,
    0x0842_4014_A080_8000,
    0xA120_1000_2840_4000,
    0x8483_0040_A009_0010,
    0x2002_0800_1000_8080,
    0x0844_0010_0801_0100,
    0x0002_0088_1062_0044,
    0x1811_9142_3824_0030,
    0x0670_9045_9902_0004,
    0x1022_0100_6080_4200,
    0x2140_0841_0180_2900,
    0x0825_4204_9080_2200,
    0x0040_2112_0008_4200,
    0x0000_0500_9128_0100,
    0x0045_8104_0006_0080,
    0x002B_0044_0A00_0100,
    0x4400_8281_0C00_6200,
    0x2002_8042_3200_2102,
    0x2082_1100_8340_0465,
    0x8200_2000_1019_0045,
    0xD80A_2821_0090_004D,
    0x4002_0084_7028_2012,
    0x406E_0030_84B4_880E,
    0x0842_0490_0208_0104,
    0xC00D_0F53_0324_0182,
];
/// For each square, a multiplier that sends the subsets of the bishop's mask to distinct indices.
pub const BISHOP_MAGIC_NUMBERS: [u64; 64] = [
    0x0010_0C05_0800_2100,
    0x0010_0403_0410_2EC1,
    0x0010_0112_0924_0008,
    0x8004_0400_8400_1800,
    0x804E_0610_0408_0029,
    0x3082_0510_0808_0000,
    0x00E4_0884_8420_00E3,
    0xEA4B_0042_102B_4800,
    0x0420_4008_1124_2280,
    0x0614_0410_0404_4080,
    0x0008_2122_4082_0081,
    0x3000_0404_0480_0000,
    0x02C4_0414_E000_4010,
    0x0080_1090_0420_6040,
    0x8200_10C2_3030_3800,
    0x4008_0044_0209_1004,
    0x0248_1440_1063_A204,
    0x0088_8160_2301_0A00,
    0x0046_0030_0780_D106,
    0x0800_8208_0200_C400,
    0x80A4_0406_0211_0200,
    0x5D0A_00A1_009A_0110,
    0x1102_8F22_0803_4820,
    0x082A_0093_0080_8440,
    0x9005_0C18_9020_1840,
    0x0010_0405_7001_AA00,
    0x1118_0404_1800_4810,
    0x0004_0040_8401_0042,
    0x1482_4880_2C00_2008,
    0x0048_0200_0420_8410,
    0x0004_2040_1188_0400,
    0x5812_0200_0084_8080,
    0x4250_5090_110C_940C,
    0x0884_0A20_9C28_5110,
    0x00D0_2808_0484_0020,
    0x8500_3008_2084_0400,
    0x1520_068C_0080_8020,
    0x4020_1805_1100_8040,
    0x0001_0101_0404_0420,
    0x0068_4049_0000_4101,
    0x0632_8414_4084_2002,
    0x0041_2410_0201_8422,
    0x1C81_9402_0800_0102,
    0x4008_48A0_5800_0100,
    0x1410_0801_0040_0408,
    0x1409_0531_0600_0501,
    0x0012_0802_1400_0280,
    0x2004_C100_4201_0101,
    0xA117_0190_7008_08A4,
    0x0000_8088_88A0_0000,
    0x0288_1100_8090_4040,
    0xB400_8358_420E_1014,
    0x4616_0010_2022_0301,
    0x0001_48A1_1404_2016,
    0x8012_1010_0080_8400,
    0x1018_1821_8402_4041,
    0x3005_0108_028A_0840,
    0x8090_4022_0930_2800,
    0x8110_1022_0209_0C20,
    0x4010_0040_0142_0201,
    0x5180_0020_5212_0A00,
    0x00A0_0040_0604_1100,
    0x9400_49A0_3800_8308,
    0x8090_0202_0C04_001C,
];
/// A shifted value is at most the largest value shifted alike.
pub proof fn lemma_shift_bound(x: u64, s: u64)
    by (bit_vector)
    requires
        s < 64,
    ensures
        x >> s <= u64::MAX >> s,
{
}

/// The subset of `mask` that follows `occupied` when the subsets are counted upward, and the
/// empty set after the last one: `occupied - mask` modulo 2^64, cut down to `mask`.
pub open spec fn next_subset(mask: u64, occupied: u64) -> u64 {
    occupied.wrapping_sub(mask) & mask
}

proof fn lemma_next_subset_bits(mask: u64, occupied: u64, x: u64)
    by (bit_vector)
    requires
        occupied & !mask == 0,
    ensures
        ({
            let next = next_subset(mask, occupied);
            &&& next & !mask == 0
            &&& next <= mask
            &&& occupied <= mask
            &&& (next == 0 <==> occupied == mask)
            &&& (next != 0 ==> next > occupied)
            &&& (x & !mask == 0 && x > occupied ==> next != 0 && next <= x)
        }),
{
}

/// `next_subset` walks the subsets of `mask` upward without leaving one out: from a subset it
/// gives the least larger subset, and the empty set from `mask` itself.
pub proof fn lemma_next_subset(mask: u64, occupied: u64)
    requires
        occupied & !mask == 0,
    ensures
        next_subset(mask, occupied) & !mask == 0,
        next_subset(mask, occupied) == 0 <==> occupied == mask,
        next_subset(mask, occupied) != 0 ==> next_subset(mask, occupied) > occupied,
        next_subset(mask, occupied) <= mask,
        occupied <= mask,
        forall|x: u64|
            x & !mask == 0 && x > occupied ==> next_subset(mask, occupied) != 0 && next_subset(
                mask,
                occupied,
            ) <= x,
{
    lemma_next_subset_bits(mask, occupied, 0);
    assert forall|x: u64| x & !mask == 0 && x > occupied implies next_subset(mask, occupied) != 0
        && next_subset(mask, occupied) <= x by {
        lemma_next_subset_bits(mask, occupied, x);
    }
}

/// The multiplier of square `s` for `kind`.
pub open spec fn magic_number(kind: PieceType, s: int) -> u64 {
    match kind {
        PieceType::Rook => ROOK_MAGIC_NUMBERS[s],
        _ => BISHOP_MAGIC_NUMBERS[s],
    }
}

/// The magic record of square `s`, with its entries starting at `offset`.
pub open spec fn magic_spec(kind: PieceType, s: int, offset: int) -> Magic {
    Magic {
        mask: relevant_mask(kind, s),
        number: magic_number(kind, s),
        shift: (64 - popcount(relevant_mask(kind, s))) as u8,
        offset: offset as u64,
    }
}

proof fn lemma_high_shift(s: u64)
    by (bit_vector)
    requires
        52 <= s < 64,
    ensures
        u64::MAX >> s <= 0xFFFu64,
{
}

proof fn lemma_mask_twice(x: u64, mask: u64)
    by (bit_vector)
    ensures
        (x & mask) & mask == x & mask,
        (x & mask) & !mask == 0,
        x & mask <= mask,
        0u64 & !mask == 0,
{
}

/// The range of the magic record of a square: its shift is a legal shift, and its indices
/// stay below `offset + 4096`.
pub proof fn lemma_magic_spec(kind: PieceType, s: int, offset: int)
    requires
        on_board(s),
        kind == PieceType::Rook || kind == PieceType::Bishop,
        0 <= offset <= u32::MAX,
    ensures
        52 <= magic_spec(kind, s, offset).shift < 64,
        magic_spec(kind, s, offset).shift == 64 - popcount(relevant_mask(kind, s)),
        magic_spec(kind, s, offset).offset == offset,
        offset <= magic_spec(kind, s, offset).reach() <= offset + 0xFFF,
{
    lemma_relevant_mask_size(kind, s);
    lemma_high_shift(magic_spec(kind, s, offset).shift as u64);
}

/// Only the masked part of an occupancy enters the index.
pub proof fn lemma_index_of_masked(magic: Magic, occupied: u64)
    ensures
        magic.index_spec(occupied & magic.mask) == magic.index_spec(occupied),
        (occupied & magic.mask) & !magic.mask == 0,
        occupied & magic.mask <= magic.mask,
        0u64 & !magic.mask == 0,
{
    lemma_mask_twice(occupied, magic.mask);
}

impl Default for Magic {
    fn default() -> (m: Magic)
        ensures
            m == (Magic { mask: 0, number: 0, shift: 0, offset: 0 }),
    {
        Magic { mask: 0, number: 0, shift: 0, offset: 0 }
    }
}

impl Magic {
    /// The index before `offset` is added: the masked occupancy times `number`, modulo 2^64,
    /// shifted right by `shift`.
    pub open spec fn hash_spec(&self, occupied: u64) -> u64 {
        (occupied & self.mask).wrapping_mul(self.number) >> self.shift
    }

    /// The table index of an occupancy.
    pub open spec fn index_spec(&self, occupied: u64) -> int {
        self.offset + self.hash_spec(occupied)
    }

    /// The largest index that any occupancy can give.
    pub open spec fn reach(&self) -> int {
        self.offset + (u64::MAX >> self.shift)
    }

    /// The index of `occupied` in the shared attack table.
    pub fn get_index(&self, occupied: Bitboard) -> (index: usize)
        requires
            self.shift < 64,
            self.reach() <= usize::MAX,
        ensures
            index == self.index_spec(occupied),
            self.offset <= index <= self.reach(),
    {
        let product: u64 = (occupied & self.mask).wrapping_mul(self.number);
        proof {
            lemma_shift_bound(product, self.shift as u64);
        }
        let hash: u64 = product >> self.shift;
        (self.offset + hash) as usize
    }
}

} // verus!
