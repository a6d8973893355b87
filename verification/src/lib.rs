//! Attack tables for a chessboard of 64-bit bitboards.
//!
//! `bitboards::Bitboards` holds, for every square, the squares that each kind of piece
//! attacks from it. Pawn, knight and king have one set for each square. Rook and bishop depend
//! on the pieces in their way: their sets are stored for every arrangement of the pieces that
//! matter and found by a magic multiplication of the occupancy. The same type holds, for
//! each pair of squares, the line through both.
//!
//! Every answer is proved to be the set that the rules of movement describe: `attacks` states
//! those rules, `tables` and `perfect` prove that the magic tables hold them, and `laws`
//! collects what follows for the callers.

pub mod attacks;
pub mod bitboards;
pub mod bits;
pub mod defs;
pub mod laws;
pub mod magics;
pub mod masks;
pub mod perfect;
pub mod render;
pub mod subsets;
pub mod tables;
