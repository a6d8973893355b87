use crate::bits::member;
use crate::defs::square_at;
use vstd::prelude::*;

verus! {

/// The line of file letters and the first separator line of a rendered board.
pub open spec fn header_text() -> Seq<char> {
    "  A   B   C   D   E   F   G   H  \n+---+---+---+---+---+---+---+---+\n"@
}

/// The separator line that closes a rank.
pub open spec fn separator_text() -> Seq<char> {
    "+---+---+---+---+---+---+---+---+\n"@
}

/// The cell of square `s`: marked with `X` where the bitboard holds the square.
pub open spec fn cell_text(bb: u64, s: int) -> Seq<char> {
    if member(bb, s) {
        "| X "@
    } else {
        "|   "@
    }
}

/// The end of the line of rank `rank`: the closing bar and the rank's number, from 1.
pub open spec fn label_text(rank: int) -> Seq<char> {
    if rank == 0 {
        "| 1\n"@
    } else if rank == 1 {
        "| 2\n"@
    } else if rank == 2 {
        "| 3\n"@
    } else if rank == 3 {
        "| 4\n"@
    } else if rank == 4 {
        "| 5\n"@
    } else if rank == 5 {
        "| 6\n"@
    } else if rank == 6 {
        "| 7\n"@
    } else {
        "| 8\n"@
    }
}

/// The cells of the first `files` files of rank `rank`, from the A-file on.
pub open spec fn cells_text(bb: u64, rank: int, files: int) -> Seq<char>
    decreases files,
{
    if files <= 0 {
        Seq::empty()
    } else {
        cells_text(bb, rank, files - 1) + cell_text(bb, square_at(files - 1, rank))
    }
}

/// The header and the first `ranks` ranks below it, from the eighth rank down.
pub open spec fn rows_text(bb: u64, ranks: int) -> Seq<char>
    decreases ranks,
{
    if ranks <= 0 {
        header_text()
    } else {
        rows_text(bb, ranks - 1) + cells_text(bb, 8 - ranks, 8) + label_text(8 - ranks)
            + separator_text()
    }
}

/// The rendered board: the file letters, then the ranks from the eighth down to the first, a
/// cell for each square from the A-file to the H-file, and a separator line after each rank.
pub open spec fn pretty_spec(bb: u64) -> Seq<char> {
    rows_text(bb, 8)
}

} // verus!
