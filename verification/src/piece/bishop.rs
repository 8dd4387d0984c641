//! The bishop: slides along diagonals.

use vstd::prelude::*;
use crate::board::Board;
use crate::piece::util::{floating_checks, floating_moves, sliding_check, sliding_moves};
use crate::util::{Color, Position};

verus! {

/// The four directions of a bishop.
pub const DELTAS: [(i8, i8); 4] = [(1, 1), (1, -1), (-1, -1), (-1, 1)];

/// The four directions of a bishop, in the order in which they are searched.
pub open spec fn deltas() -> Seq<(i8, i8)> {
    seq![(1i8, 1i8), (1i8, -1i8), (-1i8, -1i8), (-1i8, 1i8)]
}

/// The legal destinations of a bishop of `color` on `from`.
pub open spec fn moves(board: Board, from: Position, color: Color) -> Seq<Position> {
    sliding_moves(board, from, color, deltas())
}

/// Whether a bishop of `color` on `at` would give check.
pub open spec fn gives_check(board: Board, at: Position, color: Color) -> bool {
    sliding_check(board, at, color, deltas())
}

/// Appends the legal destinations of the bishop on `from` to `dst`.
pub fn append_moves(board: &Board, from: Position, dst: &mut Vec<Position>)
    requires
        from.wf(),
        board.at(from) is Some,
    ensures
        final(dst)@ == old(dst)@ + moves(*board, from, board.at(from)->Some_0.color),
{
    assert(DELTAS@ =~= deltas());
    floating_moves(&DELTAS, board, from, dst)
}

/// Whether a bishop of `color` on `at` would give check.
pub fn checks(at: Position, color: Color, board: &Board) -> (r: bool)
    requires
        at.wf(),
    ensures
        r == gives_check(*board, at, color),
{
    assert(DELTAS@ =~= deltas());
    floating_checks(&DELTAS, at, color, board)
}

} // verus!
