//! The knight: eight fixed jumps.

use vstd::prelude::*;
use crate::board::Board;
use crate::piece::util::{
    king_safe,
    lands,
    lemma_append_assoc,
    lemma_append_nothing,
    may_land,
    stays_safe,
};
use crate::util::{Color, Position};

verus! {

/// The jump of `(dx, dy)` from `from`, if it is legal: the target is on the
/// board, not held by a piece of `color`, and the king of `color` is out of
/// danger once the knight has left `from` and stands on the target.
#[verifier::opaque]
pub open spec fn jump(board: Board, from: Position, color: Color, dx: int, dy: int) -> Seq<Position> {
    match from.shifted(dx, dy) {
        Some(to) => if lands(board, color, to) && king_safe(board, color, seq![from], seq![to]) {
            seq![to]
        } else {
            seq![]
        },
        None => seq![],
    }
}

/// The legal destinations of a knight of `color` on `from`, in the order in
/// which they are produced. With two checks recorded there are none.
pub open spec fn moves(board: Board, from: Position, color: Color) -> Seq<Position> {
    if board.checking_pieces > 1 {
        seq![]
    } else {
        jump(board, from, color, 2, -1) + jump(board, from, color, 1, -2) + jump(
            board,
            from,
            color,
            -1,
            -2,
        ) + jump(board, from, color, -2, -1) + jump(board, from, color, -2, 1) + jump(
            board,
            from,
            color,
            -1,
            2,
        ) + jump(board, from, color, 1, 2) + jump(board, from, color, 2, 1)
    }
}

fn try_jump(
    board: &Board,
    from: Position,
    color: Color,
    king: Option<Position>,
    dx: i8,
    dy: i8,
    dst: &mut Vec<Position>,
)
    requires
        from.wf(),
        -2 <= dx <= 2,
        -2 <= dy <= 2,
        king == board.king_square(color),
        king matches Some(k) ==> k.wf(),
    ensures
        final(dst)@ == old(dst)@ + jump(*board, from, color, dx as int, dy as int),
{
    reveal(jump);
    proof {
        lemma_append_nothing(dst@);
    }
    if let Some(to) = from.offset(dx, dy) {
        let cleared = [from];
        let blocked = [to];
        assert(cleared@ =~= seq![from]);
        assert(blocked@ =~= seq![to]);
        if may_land(board, color, to) && stays_safe(board, king, &cleared, &blocked, color) {
            dst.push(to);
            assert(dst@ =~= old(dst)@ + seq![to]);
        }
    }
}

/// Appends the legal destinations of the knight on `from` to `dst`.
pub fn append_moves(board: &Board, from: Position, dst: &mut Vec<Position>)
    requires
        from.wf(),
        board.at(from) is Some,
    ensures
        final(dst)@ == old(dst)@ + moves(*board, from, board.at(from)->Some_0.color),
{
    let color = board.get(from).unwrap().color;
    let ghost base = dst@;
    let ghost b = *board;
    if board.in_double_check() {
        proof {
            lemma_append_nothing(base);
        }
        return ;
    }
    let king = board.find_king(color);
    try_jump(board, from, color, king, 2, -1, dst);
    let ghost s1 = jump(b, from, color, 2, -1);
    try_jump(board, from, color, king, 1, -2, dst);
    let ghost s2 = s1 + jump(b, from, color, 1, -2);
    proof {
        lemma_append_assoc(base, s1, jump(b, from, color, 1, -2));
    }
    try_jump(board, from, color, king, -1, -2, dst);
    let ghost s3 = s2 + jump(b, from, color, -1, -2);
    proof {
        lemma_append_assoc(base, s2, jump(b, from, color, -1, -2));
    }
    try_jump(board, from, color, king, -2, -1, dst);
    let ghost s4 = s3 + jump(b, from, color, -2, -1);
    proof {
        lemma_append_assoc(base, s3, jump(b, from, color, -2, -1));
    }
    try_jump(board, from, color, king, -2, 1, dst);
    let ghost s5 = s4 + jump(b, from, color, -2, 1);
    proof {
        lemma_append_assoc(base, s4, jump(b, from, color, -2, 1));
    }
    try_jump(board, from, color, king, -1, 2, dst);
    let ghost s6 = s5 + jump(b, from, color, -1, 2);
    proof {
        lemma_append_assoc(base, s5, jump(b, from, color, -1, 2));
    }
    try_jump(board, from, color, king, 1, 2, dst);
    let ghost s7 = s6 + jump(b, from, color, 1, 2);
    proof {
        lemma_append_assoc(base, s6, jump(b, from, color, 1, 2));
    }
    try_jump(board, from, color, king, 2, 1, dst);
    proof {
        lemma_append_assoc(base, s7, jump(b, from, color, 2, 1));
    }
}

/// Whether a knight of `color` on `at` would give check: the enemy king
/// stands a knight's jump away.
pub open spec fn gives_check(board: Board, at: Position, color: Color) -> bool {
    match board.king_square(color.flip()) {
        Some(k) => {
            let df = k.file - at.file;
            let dr = k.rank - at.rank;
            (df == 1 || df == -1) && (dr == 2 || dr == -2) || (df == 2 || df == -2) && (dr == 1
                || dr == -1)
        },
        None => false,
    }
}

/// Whether a knight of `color` on `at` would give check.
pub fn checks(at: Position, color: Color, board: &Board) -> (r: bool)
    requires
        at.wf(),
    ensures
        r == gives_check(*board, at, color),
{
    match board.find_king(color.other()) {
        Some(k) => {
            let df: i8 = k.file as i8 - at.file as i8;
            let dr: i8 = k.rank as i8 - at.rank as i8;
            (df == 1 || df == -1) && (dr == 2 || dr == -2) || (df == 2 || df == -2) && (dr == 1
                || dr == -1)
        },
        None => false,
    }
}

} // verus!
