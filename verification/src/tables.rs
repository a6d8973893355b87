use crate::attacks::{between, clear_between, slider_sees, sliding_attack_spec};
use crate::bits::{
    lemma_bitboard_of, lemma_bitboard_of_unique, lemma_member_empty, lemma_member_ops, member,
    popcount,
};
use crate::defs::{file_of, on_board, rank_of, PieceType};
use crate::magics::{
    lemma_index_of_masked, lemma_magic_spec, lemma_next_subset, lemma_shift_bound, magic_spec,
    next_subset, Magic,
};
use crate::masks::{lemma_relevant_mask, relevant, relevant_mask};
use crate::perfect::lemma_magic_injective;
use crate::subsets::{
    lemma_pow2_positive, lemma_pow2_shift, lemma_subset_rank, pow2, subset_rank,
};
use vstd::prelude::*;

verus! {

/// A shared attack table while it is being filled: its slots, where 0 marks a free slot, and
/// the number of slots filled so far.
pub struct TableState {
    pub table: Seq<u64>,
    pub filled: int,
}

/// `table`, lengthened with free slots where it does not reach `index`.
pub open spec fn grown(table: Seq<u64>, index: int) -> Seq<u64> {
    if index < table.len() {
        table
    } else {
        table + Seq::new((index + 1 - table.len()) as nat, |i: int| 0u64)
    }
}

/// Storing `attack` at `index`: the table grows to hold the slot; a free slot takes the value
/// and is counted, a filled slot keeps what it has.
pub open spec fn store(st: TableState, index: int, attack: u64) -> TableState {
    let table = grown(st.table, index);
    if table[index] == 0 {
        TableState { table: table.update(index, attack), filled: st.filled + 1 }
    } else {
        TableState { table, filled: st.filled }
    }
}

/// Storing the attack sets of square `s` for `occupied` and every later subset of the mask,
/// in ascending order.
pub open spec fn fill_from(
    kind: PieceType,
    s: int,
    magic: Magic,
    occupied: u64,
    st: TableState,
) -> TableState
    decreases magic.mask - occupied,
    when occupied & !magic.mask == 0
    via fill_from_decreases
{
    let stored = store(st, magic.index_spec(occupied), sliding_attack_spec(kind, s, occupied));
    let next = next_subset(magic.mask, occupied);
    if next == 0 {
        stored
    } else {
        fill_from(kind, s, magic, next, stored)
    }
}

#[via_fn]
proof fn fill_from_decreases(kind: PieceType, s: int, magic: Magic, occupied: u64, st: TableState) {
    lemma_next_subset(magic.mask, occupied);
}

/// Storing the attack sets of square `s` for every subset of its mask; the square's entries
/// start at the number of slots filled before.
pub open spec fn fill_square(kind: PieceType, s: int, st: TableState) -> TableState {
    fill_from(kind, s, magic_spec(kind, s, st.filled), 0, st)
}

/// The table after the squares below `n` have been stored in order, starting from `table`.
pub open spec fn build(kind: PieceType, n: int, table: Seq<u64>) -> TableState
    decreases n,
{
    if n <= 0 {
        TableState { table, filled: 0 }
    } else {
        fill_square(kind, n - 1, build(kind, n - 1, table))
    }
}

/// `later` has every slot of `earlier`, and each filled slot of `earlier` unchanged.
pub open spec fn extends(earlier: Seq<u64>, later: Seq<u64>) -> bool {
    &&& earlier.len() <= later.len()
    &&& forall|i: int| 0 <= i < earlier.len() && earlier[i] != 0 ==> later[i] == earlier[i]
}

/// Every occupancy leads `magic` to a filled slot of `table`.
pub open spec fn covers(table: Seq<u64>, magic: Magic) -> bool {
    forall|occupied: u64|
        0 <= #[trigger] magic.index_spec(occupied) < table.len() && table[magic.index_spec(
            occupied,
        )] != 0
}

/// Every occupancy of every square leads the square's magic record to the slot of `table`
/// that holds the attack set of that occupancy.
pub open spec fn exact_table(kind: PieceType, magics: Seq<Magic>, table: Seq<u64>) -> bool {
    forall|s: int, occupied: u64|
        0 <= s < 64 ==> 0 <= #[trigger] magics[s].index_spec(occupied) < table.len()
            && table[magics[s].index_spec(occupied)] == sliding_attack_spec(kind, s, occupied)
}

/// The number of filled slots of `table` from `lo` up to `hi`.
pub open spec fn count_filled(table: Seq<u64>, lo: int, hi: int) -> int
    decreases hi - lo,
{
    if hi <= lo {
        0
    } else if hi - 1 < table.len() && table[hi - 1] != 0 {
        count_filled(table, lo, hi - 1) + 1
    } else {
        count_filled(table, lo, hi - 1)
    }
}

/// A stretch of slots holds no more filled slots than slots.
pub proof fn lemma_count_filled_bounds(table: Seq<u64>, lo: int, hi: int)
    requires
        0 <= lo <= hi,
    ensures
        0 <= count_filled(table, lo, hi) <= hi - lo,
    decreases hi - lo,
{
    if lo < hi {
        lemma_count_filled_bounds(table, lo, hi - 1);
    }
}

/// Storing a non-empty attack set within a window adds to the window's filled slots what it
/// adds to the count.
pub proof fn lemma_count_filled_store(st: TableState, index: int, attack: u64, lo: int, hi: int)
    requires
        0 <= lo <= hi,
        lo <= index,
        attack != 0,
    ensures
        index < hi ==> count_filled(store(st, index, attack).table, lo, hi) - count_filled(
            st.table,
            lo,
            hi,
        ) == store(st, index, attack).filled - st.filled,
        index >= hi ==> count_filled(store(st, index, attack).table, lo, hi) == count_filled(
            st.table,
            lo,
            hi,
        ),
    decreases hi - lo,
{
    if lo < hi {
        lemma_count_filled_store(st, index, attack, lo, hi - 1);
    }
}

/// Storing keeps what the table held.
pub proof fn lemma_store_extends(st: TableState, index: int, attack: u64)
    requires
        0 <= index,
    ensures
        extends(st.table, store(st, index, attack).table),
        index < store(st, index, attack).table.len(),
        attack != 0 ==> store(st, index, attack).table[index] != 0,
        st.filled <= store(st, index, attack).filled <= st.filled + 1,
{
}

/// A table that extends a covering table covers too.
pub proof fn lemma_extends_covers(earlier: Seq<u64>, later: Seq<u64>, magic: Magic)
    requires
        extends(earlier, later),
        covers(earlier, magic),
    ensures
        covers(later, magic),
{
    assert forall|occupied: u64|
        0 <= #[trigger] magic.index_spec(occupied) < later.len() && later[magic.index_spec(
            occupied,
        )] != 0 by {
        let i = magic.index_spec(occupied);
        assert(0 <= i < earlier.len() && earlier[i] != 0);
    }
}

/// A rook or a bishop attacks at least one square, whatever the occupancy.
pub proof fn lemma_sliding_attack_nonempty(kind: PieceType, s: int, occupied: u64)
    requires
        on_board(s),
        kind == PieceType::Rook || kind == PieceType::Bishop,
    ensures
        sliding_attack_spec(kind, s, occupied) != 0,
{
    let fs = file_of(s);
    let rs = rank_of(s);
    let tf = if fs < 4 {
        fs + 1
    } else {
        fs - 1
    };
    let tr = if kind == PieceType::Rook {
        rs
    } else if rs < 4 {
        rs + 1
    } else {
        rs - 1
    };
    let t = 8 * tr + tf;
    assert(file_of(t) == tf && rank_of(t) == tr);
    assert(forall|u: int| !between(s, t, u));
    assert(slider_sees(kind, s, occupied, t));
    lemma_bitboard_of(|t: int| slider_sees(kind, s, occupied, t));
    lemma_member_empty();
    assert(member(sliding_attack_spec(kind, s, occupied), t));
}

/// Pieces outside the relevant mask do not change what a slider attacks.
pub proof fn lemma_masked_attack(kind: PieceType, s: int, occupied: u64)
    requires
        on_board(s),
        kind == PieceType::Rook || kind == PieceType::Bishop,
    ensures
        sliding_attack_spec(kind, s, occupied & relevant_mask(kind, s)) == sliding_attack_spec(
            kind,
            s,
            occupied,
        ),
{
    let mask = relevant_mask(kind, s);
    let masked = occupied & mask;
    lemma_relevant_mask(kind, s);
    lemma_member_ops(occupied, mask);
    lemma_member_empty();
    lemma_bitboard_of(|t: int| slider_sees(kind, s, masked, t));
    assert forall|t: int| 0 <= t < 64 implies (#[trigger] member(
        sliding_attack_spec(kind, s, masked),
        t,
    ) <==> slider_sees(kind, s, occupied, t)) by {
        if slider_sees(kind, s, 0, t) {
            assert forall|u: int| between(s, t, u) implies (member(masked, u) <==> member(
                occupied,
                u,
            )) by {
                assert(forall|v: int| between(s, u, v) ==> !member(0u64, v));
                assert(relevant(kind, s, u));
                assert(member(mask, u));
            }
            if clear_between(s, t, occupied) {
                assert(clear_between(s, t, masked));
            }
            if clear_between(s, t, masked) {
                assert(clear_between(s, t, occupied));
            }
        }
    }
    lemma_bitboard_of_unique(
        sliding_attack_spec(kind, s, masked),
        |t: int| slider_sees(kind, s, occupied, t),
    );
}

/// While the subsets of one square are stored, from `x` on: what holds before `x` is stored.
/// The table `cur` began as `base`, whose slots all lie below `first`, where the square's
/// entries start.
spec fn filling(
    kind: PieceType,
    s: int,
    first: int,
    x: u64,
    cur: TableState,
    base: Seq<u64>,
) -> bool {
    let magic = magic_spec(kind, s, first);
    &&& x & !magic.mask == 0
    &&& cur.filled == first + subset_rank(magic.mask, x)
    &&& cur.filled == count_filled(cur.table, 0, first + pow2(popcount(magic.mask)))
    &&& base.len() <= cur.table.len() <= first + pow2(popcount(magic.mask))
    &&& forall|i: int| 0 <= i < base.len() ==> cur.table[i] == base[i]
    &&& forall|y: u64|
        y & !magic.mask == 0 && y < x ==> 0 <= #[trigger] magic.index_spec(y) < cur.table.len()
            && cur.table[magic.index_spec(y)] == sliding_attack_spec(kind, s, y)
    &&& forall|i: int|
        base.len() <= i < cur.table.len() && #[trigger] cur.table[i] != 0 ==> exists|y: u64|
            y & !magic.mask == 0 && y < x && i == #[trigger] magic.index_spec(y)
}

/// When all subsets of one square are stored: the square filled as many slots as its mask
/// has subsets, all from `first` on, and the entry of each subset is its attack set.
spec fn filled_square(
    kind: PieceType,
    s: int,
    first: int,
    done: TableState,
    base: Seq<u64>,
) -> bool {
    let magic = magic_spec(kind, s, first);
    &&& done.filled == first + pow2(popcount(magic.mask))
    &&& done.filled == count_filled(done.table, 0, done.filled)
    &&& base.len() <= done.table.len() <= done.filled
    &&& forall|i: int| 0 <= i < base.len() ==> done.table[i] == base[i]
    &&& forall|y: u64|
        y & !magic.mask == 0 ==> 0 <= #[trigger] magic.index_spec(y) < done.table.len()
            && done.table[magic.index_spec(y)] == sliding_attack_spec(kind, s, y)
}

proof fn lemma_fill_from_exact(
    kind: PieceType,
    s: int,
    first: int,
    x: u64,
    cur: TableState,
    base: Seq<u64>,
)
    requires
        on_board(s),
        kind == PieceType::Rook || kind == PieceType::Bishop,
        0 <= base.len() <= first <= 64 * 0x1000,
        filling(kind, s, first, x, cur, base),
    ensures
        filled_square(
            kind,
            s,
            first,
            fill_from(kind, s, magic_spec(kind, s, first), x, cur),
            base,
        ),
    decreases magic_spec(kind, s, first).mask - x,
{
    let magic = magic_spec(kind, s, first);
    let mask = magic.mask;
    let p = popcount(mask);
    lemma_magic_injective(kind, s, first);
    lemma_magic_spec(kind, s, first);
    lemma_subset_rank(mask, x);
    lemma_next_subset(mask, x);
    lemma_pow2_shift(p);
    lemma_shift_bound((x & mask).wrapping_mul(magic.number), magic.shift as u64);
    let index = magic.index_spec(x);
    let attack = sliding_attack_spec(kind, s, x);
    assert(first <= index < first + pow2(p));
    lemma_sliding_attack_nonempty(kind, s, x);
    lemma_count_filled_store(cur, index, attack, 0, first + pow2(p));
    let roomy = grown(cur.table, index);
    assert(roomy[index] == 0) by {
        if index < cur.table.len() && cur.table[index] != 0 {
            let y = choose|y: u64|
                y & !mask == 0 && y < x && index == #[trigger] magic.index_spec(y);
            assert(magic.hash_spec(y) == magic.hash_spec(x));
            lemma_subset_is_masked(y, mask);
            lemma_subset_is_masked(x, mask);
        }
    }
    let stored = store(cur, index, attack);
    assert(stored.table == roomy.update(index, attack));
    let next = next_subset(mask, x);
    assert forall|y: u64| y & !mask == 0 && y <= x implies 0 <= #[trigger] magic.index_spec(y)
        < stored.table.len() && stored.table[magic.index_spec(y)] == sliding_attack_spec(
        kind,
        s,
        y,
    ) by {
        if y < x {
            if magic.index_spec(y) == index {
                assert(magic.hash_spec(y) == magic.hash_spec(x));
                lemma_subset_is_masked(y, mask);
                lemma_subset_is_masked(x, mask);
            }
        }
    }
    if next == 0 {
        assert(fill_from(kind, s, magic, x, cur) == stored);
        assert forall|y: u64| y & !mask == 0 implies 0 <= #[trigger] magic.index_spec(y)
            < stored.table.len() && stored.table[magic.index_spec(y)] == sliding_attack_spec(
            kind,
            s,
            y,
        ) by {
            lemma_next_subset(mask, y);
        }
    } else {
        assert(fill_from(kind, s, magic, x, cur) == fill_from(kind, s, magic, next, stored));
        assert forall|i: int|
            base.len() <= i < stored.table.len() && #[trigger] stored.table[i] != 0 implies exists|
            y: u64,
        |
            y & !mask == 0 && y < next && i == #[trigger] magic.index_spec(y) by {
            if i == index {
                assert(x & !mask == 0 && x < next && i == magic.index_spec(x));
            } else {
                assert(i < cur.table.len() && cur.table[i] != 0);
                let y = choose|y: u64|
                    y & !mask == 0 && y < x && i == #[trigger] magic.index_spec(y);
                assert(y & !mask == 0 && y < next && i == magic.index_spec(y));
            }
        }
        assert(filling(kind, s, first, next, stored, base));
        lemma_fill_from_exact(kind, s, first, next, stored, base);
    }
}

proof fn lemma_subset_is_masked(x: u64, mask: u64)
    by (bit_vector)
    requires
        x & !mask == 0,
    ensures
        x & mask == x,
{
}

/// The number of subsets of the masks of the squares below `n`, all together.
pub open spec fn subsets_before(kind: PieceType, n: int) -> int
    decreases n,
{
    if n <= 0 {
        0
    } else {
        subsets_before(kind, n - 1) + pow2(popcount(relevant_mask(kind, n - 1)))
    }
}

/// Slots past the end of the table are not counted, so no more slots are filled than the
/// table has.
pub proof fn lemma_count_filled_within(table: Seq<u64>, hi: int)
    requires
        0 <= hi,
    ensures
        count_filled(table, 0, hi) <= table.len(),
        hi >= table.len() ==> count_filled(table, 0, hi) == count_filled(
            table,
            0,
            table.len() as int,
        ),
    decreases hi,
{
    if hi > 0 {
        lemma_count_filled_within(table, hi - 1);
        lemma_count_filled_bounds(table, 0, hi - 1);
    }
}

/// Where as many slots are filled as there are, each one is.
pub proof fn lemma_count_filled_full(table: Seq<u64>, n: int)
    requires
        0 <= n <= table.len(),
        count_filled(table, 0, n) == n,
    ensures
        forall|i: int| 0 <= i < n ==> table[i] != 0,
    decreases n,
{
    if n > 0 {
        lemma_count_filled_bounds(table, 0, n - 1);
        lemma_count_filled_full(table, n - 1);
    }
}

/// With the tables built from nothing, every entry is right: after the squares below `n`,
/// the table holds one slot for each subset of each of their masks, each slot is filled, and
/// for each of these squares every occupancy leads its magic record to the attack set of
/// that occupancy.
pub proof fn lemma_build_exact(kind: PieceType, n: int)
    requires
        0 <= n <= 64,
        kind == PieceType::Rook || kind == PieceType::Bishop,
    ensures
        0 <= build(kind, n, Seq::empty()).filled <= n * 0x1000,
        build(kind, n, Seq::empty()).filled == subsets_before(kind, n),
        build(kind, n, Seq::empty()).table.len() == subsets_before(kind, n),
        forall|i: int|
            0 <= i < subsets_before(kind, n) ==> #[trigger] build(kind, n, Seq::empty()).table[i]
                != 0,
        forall|s: int, occupied: u64|
            0 <= s < n ==> 0 <= #[trigger] magic_spec(
                kind,
                s,
                build(kind, s, Seq::empty()).filled,
            ).index_spec(occupied) < build(kind, n, Seq::empty()).table.len() && build(
                kind,
                n,
                Seq::empty(),
            ).table[magic_spec(kind, s, build(kind, s, Seq::empty()).filled).index_spec(occupied)]
                == sliding_attack_spec(kind, s, occupied),
    decreases n,
{
    if n > 0 {
        let s = n - 1;
        let before = build(kind, s, Seq::empty());
        let after = build(kind, n, Seq::empty());
        let first = before.filled;
        let magic = magic_spec(kind, s, first);
        lemma_build_exact(kind, s);
        lemma_index_of_masked(magic, 0);
        lemma_subset_rank(magic.mask, 0);
        lemma_magic_spec(kind, s, first);
        lemma_pow2_shift(popcount(magic.mask));
        lemma_pow2_positive(popcount(magic.mask));
        lemma_count_filled_within(before.table, first);
        lemma_count_filled_within(before.table, first + pow2(popcount(magic.mask)));
        lemma_count_filled_full_converse(before.table, first);
        assert(filling(kind, s, first, 0, before, before.table));
        lemma_fill_from_exact(kind, s, first, 0, before, before.table);
        assert(after == fill_from(kind, s, magic, 0, before));
        lemma_count_filled_within(after.table, after.filled);
        lemma_count_filled_full(after.table, after.table.len() as int);
        assert forall|t: int, occupied: u64| 0 <= t < n implies 0 <= #[trigger] magic_spec(
            kind,
            t,
            build(kind, t, Seq::empty()).filled,
        ).index_spec(occupied) < after.table.len() && after.table[magic_spec(
            kind,
            t,
            build(kind, t, Seq::empty()).filled,
        ).index_spec(occupied)] == sliding_attack_spec(kind, t, occupied) by {
            if t == s {
                lemma_index_of_masked(magic, occupied);
                lemma_masked_attack(kind, s, occupied);
                let y = occupied & magic.mask;
                assert(0 <= magic.index_spec(y) < after.table.len());
            } else {
                let i = magic_spec(kind, t, build(kind, t, Seq::empty()).filled).index_spec(
                    occupied,
                );
                assert(0 <= i < before.table.len());
            }
        }
    }
}

/// The magic records of the 64 squares for a table built from nothing.
pub open spec fn built_magics(kind: PieceType) -> Seq<Magic> {
    Seq::new(64, |s: int| magic_spec(kind, s, build(kind, s, Seq::empty()).filled))
}

/// The squares share the table without gaps: each square's entries start where the entries
/// of the squares before it end and fill a stretch as long as the number of subsets of its
/// mask, every occupancy of the square leads into that stretch, and every slot of the table
/// is filled.
pub open spec fn packed_table(kind: PieceType, magics: Seq<Magic>, table: Seq<u64>) -> bool {
    &&& table.len() == subsets_before(kind, 64)
    &&& forall|i: int| 0 <= i < table.len() ==> #[trigger] table[i] != 0
    &&& forall|s: int| 0 <= s < 64 ==> (#[trigger] magics[s]).offset == subsets_before(kind, s)
    &&& forall|s: int, occupied: u64|
        0 <= s < 64 ==> subsets_before(kind, s) <= #[trigger] magics[s].index_spec(occupied)
            < subsets_before(kind, s + 1)
}

/// A table built from nothing is exact and packed.
pub proof fn lemma_built_table(kind: PieceType)
    requires
        kind == PieceType::Rook || kind == PieceType::Bishop,
    ensures
        exact_table(kind, built_magics(kind), build(kind, 64, Seq::empty()).table),
        packed_table(kind, built_magics(kind), build(kind, 64, Seq::empty()).table),
{
    let magics = built_magics(kind);
    lemma_build_exact(kind, 64);
    assert forall|s: int| 0 <= s < 64 implies (#[trigger] magics[s]).offset == subsets_before(
        kind,
        s,
    ) by {
        lemma_build_exact(kind, s);
        lemma_magic_spec(kind, s, subsets_before(kind, s));
    }
    assert forall|s: int, occupied: u64| 0 <= s < 64 implies subsets_before(kind, s)
        <= #[trigger] magics[s].index_spec(occupied) < subsets_before(kind, s + 1) by {
        lemma_build_exact(kind, s);
        lemma_magic_spec(kind, s, subsets_before(kind, s));
        lemma_pow2_shift(popcount(relevant_mask(kind, s)));
        lemma_shift_bound(
            (occupied & magics[s].mask).wrapping_mul(magics[s].number),
            magics[s].shift as u64,
        );
    }
}

/// Where each slot is filled, as many are filled as there are.
proof fn lemma_count_filled_full_converse(table: Seq<u64>, n: int)
    requires
        0 <= n <= table.len(),
        forall|i: int| 0 <= i < n ==> table[i] != 0,
    ensures
        count_filled(table, 0, n) == n,
    decreases n,
{
    if n > 0 {
        lemma_count_filled_full_converse(table, n - 1);
    }
}

} // verus!
