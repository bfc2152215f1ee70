//! Queen geometry: rook and bishop at once.

use vstd::prelude::*;
use crate::board_components::{BitBoard, Square};
use crate::pieces::bishop::bishop_attacks;
use crate::pieces::rook::rook_attacks;
use crate::pieces::tables::{generate_bishop_attacks, generate_rook_attakcs, AttackTables};

verus! {

/// The squares a queen on `s` attacks when the squares of `occ` are occupied.
pub open spec fn queen_attacks(s: int, occ: u64) -> u64 {
    rook_attacks(s, occ) | bishop_attacks(s, occ)
}

/// The squares a queen on `square` attacks with the pieces of `board` in its
/// way, read from the tables.
pub fn generate_queen_attacks(tables: &AttackTables, square: Square, board: BitBoard) -> (r:
    BitBoard)
    requires
        tables.wf(),
        square.on_board(),
    ensures
        r.0 == queen_attacks(square@, board.0),
{
    BitBoard(
        generate_rook_attakcs(tables, square, board).0 | generate_bishop_attacks(
            tables,
            square,
            board,
        ).0,
    )
}

} // verus!
