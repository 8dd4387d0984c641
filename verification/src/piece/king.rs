//! The king: one step in any direction, and castling.

use vstd::prelude::*;
use crate::board::Board;
use crate::piece::util::{
    attacked,
    lands,
    lemma_append_assoc,
    lemma_append_nothing,
    may_land,
    overlay,
    threatened_at,
};
use crate::piece::{Kind, Piece};
use crate::util::{Color, Position};

verus! {

/// Whether a king of `color` would be in danger on `at` once it has left
/// `from`.
pub open spec fn exposed(board: Board, from: Position, color: Color, at: Position) -> bool {
    attacked(overlay(board.placement(), seq![from], seq![], color), color, at)
}

/// The step of `(dx, dy)` from `from`, if it is legal: the target is on the
/// board, not held by a piece of `color`, and not attacked once the king
/// has left `from`.
#[verifier::opaque]
pub open spec fn step(board: Board, from: Position, color: Color, dx: int, dy: int) -> Seq<Position> {
    match from.shifted(dx, dy) {
        Some(to) => if lands(board, color, to) && !exposed(board, from, color, to) {
            seq![to]
        } else {
            seq![]
        },
        None => seq![],
    }
}

/// The rank index on which the pieces of `color` start.
pub open spec fn home_rank(color: Color) -> u8 {
    match color {
        Color::White => 7,
        Color::Black => 0,
    }
}

/// The rule of castling toward the h-file (`kingside`) or the a-file: the
/// king stands on its home square with the right of that side still held,
/// its own rook stands in the corner, every square between them is empty,
/// and neither the king's square nor the square it crosses nor the square
/// it reaches is attacked.
pub open spec fn may_castle(board: Board, from: Position, color: Color, kingside: bool) -> bool {
    let r = home_rank(color);
    let rook = Some(Piece { color, kind: Kind::Rook });
    let sq = |file: u8| Position { file, rank: r };
    &&& from == sq(4)
    &&& !exposed(board, from, color, from)
    &&& if kingside {
        &&& board.castle_kingside(color)
        &&& board.at(sq(5)) is None
        &&& board.at(sq(6)) is None
        &&& board.at(sq(7)) == rook
        &&& !exposed(board, from, color, sq(5))
        &&& !exposed(board, from, color, sq(6))
    } else {
        &&& board.castle_queenside(color)
        &&& board.at(sq(3)) is None
        &&& board.at(sq(2)) is None
        &&& board.at(sq(1)) is None
        &&& board.at(sq(0)) == rook
        &&& !exposed(board, from, color, sq(3))
        &&& !exposed(board, from, color, sq(2))
    }
}

/// The square that the king reaches by castling.
pub open spec fn castling_target(color: Color, kingside: bool) -> Position {
    Position { file: if kingside { 6 } else { 2 }, rank: home_rank(color) }
}

/// The castling move toward one side, if the rule allows it.
#[verifier::opaque]
pub open spec fn castle(board: Board, from: Position, color: Color, kingside: bool) -> Seq<Position> {
    if may_castle(board, from, color, kingside) {
        seq![castling_target(color, kingside)]
    } else {
        seq![]
    }
}

/// The legal destinations of a king of `color` on `from`, in the order in
/// which they are produced: the eight steps, then castling toward the
/// a-file, then castling toward the h-file.
pub open spec fn moves(board: Board, from: Position, color: Color) -> Seq<Position> {
    step(board, from, color, 1, 0) + step(board, from, color, 1, -1) + step(
        board,
        from,
        color,
        0,
        -1,
    ) + step(board, from, color, -1, -1) + step(board, from, color, -1, 0) + step(
        board,
        from,
        color,
        -1,
        1,
    ) + step(board, from, color, 0, 1) + step(board, from, color, 1, 1) + castle(
        board,
        from,
        color,
        false,
    ) + castle(board, from, color, true)
}

fn is_exposed(board: &Board, from: Position, color: Color, at: Position) -> (r: bool)
    requires
        at.wf(),
    ensures
        r == exposed(*board, from, color, at),
{
    let cleared = [from];
    let blocked: [Position; 0] = [];
    assert(cleared@ =~= seq![from]);
    assert(blocked@ =~= Seq::<Position>::empty());
    threatened_at(at, &cleared, &blocked, color, board)
}

fn try_step(board: &Board, from: Position, color: Color, dx: i8, dy: i8, dst: &mut Vec<Position>)
    requires
        from.wf(),
        -1 <= dx <= 1,
        -1 <= dy <= 1,
    ensures
        final(dst)@ == old(dst)@ + step(*board, from, color, dx as int, dy as int),
{
    reveal(step);
    proof {
        lemma_append_nothing(dst@);
    }
    if let Some(to) = from.offset(dx, dy) {
        if may_land(board, color, to) && !is_exposed(board, from, color, to) {
            dst.push(to);
            assert(dst@ =~= old(dst)@ + seq![to]);
        }
    }
}

fn try_castle(board: &Board, from: Position, color: Color, kingside: bool, dst: &mut Vec<Position>)
    requires
        from.wf(),
    ensures
        final(dst)@ == old(dst)@ + castle(*board, from, color, kingside),
{
    reveal(castle);
    proof {
        lemma_append_nothing(dst@);
    }
    let r: u8 = match color {
        Color::White => 7,
        Color::Black => 0,
    };
    let rook = Some(Piece { color, kind: Kind::Rook });
    if from.file != 4 || from.rank != r || is_exposed(board, from, color, from) {
        return ;
    }
    if kingside {
        let f = Position { file: 5, rank: r };
        let g = Position { file: 6, rank: r };
        let h = Position { file: 7, rank: r };
        if board.can_castle_kingside(color) && board.get(f).is_none() && board.get(g).is_none()
            && board.get(h) == rook && !is_exposed(board, from, color, f) && !is_exposed(
            board,
            from,
            color,
            g,
        ) {
            dst.push(g);
            assert(dst@ =~= old(dst)@ + seq![g]);
        }
    } else {
        let d = Position { file: 3, rank: r };
        let c = Position { file: 2, rank: r };
        let b = Position { file: 1, rank: r };
        let a = Position { file: 0, rank: r };
        if board.can_castle_queenside(color) && board.get(d).is_none() && board.get(c).is_none()
            && board.get(b).is_none() && board.get(a) == rook && !is_exposed(
            board,
            from,
            color,
            d,
        ) && !is_exposed(board, from, color, c) {
            dst.push(c);
            assert(dst@ =~= old(dst)@ + seq![c]);
        }
    }
}

/// Appends the legal destinations of the king on `from` to `dst`.
pub fn append_moves(board: &Board, from: Position, dst: &mut Vec<Position>)
    requires
        from.wf(),
        board.at(from) is Some,
    ensures
        final(dst)@ == old(dst)@ + moves(*board, from, board.at(from)->Some_0.color),
{
    let color = board.get(from).unwrap().color;
    let ghost base = dst@;
    let ghost b = *board;
    try_step(board, from, color, 1, 0, dst);
    let ghost s1 = step(b, from, color, 1, 0);
    try_step(board, from, color, 1, -1, dst);
    let ghost s2 = s1 + step(b, from, color, 1, -1);
    proof {
        lemma_append_assoc(base, s1, step(b, from, color, 1, -1));
    }
    try_step(board, from, color, 0, -1, dst);
    let ghost s3 = s2 + step(b, from, color, 0, -1);
    proof {
        lemma_append_assoc(base, s2, step(b, from, color, 0, -1));
    }
    try_step(board, from, color, -1, -1, dst);
    let ghost s4 = s3 + step(b, from, color, -1, -1);
    proof {
        lemma_append_assoc(base, s3, step(b, from, color, -1, -1));
    }
    try_step(board, from, color, -1, 0, dst);
    let ghost s5 = s4 + step(b, from, color, -1, 0);
    proof {
        lemma_append_assoc(base, s4, step(b, from, color, -1, 0));
    }
    try_step(board, from, color, -1, 1, dst);
    let ghost s6 = s5 + step(b, from, color, -1, 1);
    proof {
        lemma_append_assoc(base, s5, step(b, from, color, -1, 1));
    }
    try_step(board, from, color, 0, 1, dst);
    let ghost s7 = s6 + step(b, from, color, 0, 1);
    proof {
        lemma_append_assoc(base, s6, step(b, from, color, 0, 1));
    }
    try_step(board, from, color, 1, 1, dst);
    let ghost s8 = s7 + step(b, from, color, 1, 1);
    proof {
        lemma_append_assoc(base, s7, step(b, from, color, 1, 1));
    }
    try_castle(board, from, color, false, dst);
    let ghost s9 = s8 + castle(b, from, color, false);
    proof {
        lemma_append_assoc(base, s8, castle(b, from, color, false));
    }
    try_castle(board, from, color, true, dst);
    proof {
        lemma_append_assoc(base, s9, castle(b, from, color, true));
    }
}

/// A king never gives check.
pub fn checks(_at: Position, _color: Color, _board: &Board) -> (r: bool)
    ensures
        !r,
{
    false
}

} // verus!
