//! The pawn: advances, double advances from its starting rank, and
//! captures diagonally, en passant included.

use vstd::prelude::*;
use crate::board::Board;
use crate::piece::util::{
    if_safe,
    king_safe,
    lemma_append_assoc,
    lemma_append_nothing,
    pin_allows,
    pin_axis,
    pin_permits,
    position_hides_check,
    push_if_safe,
    stays_safe,
};
use crate::util::{Color, Position};

verus! {

/// The square of a pawn of `color` that has not moved yet is on this rank.
pub open spec fn starting_rank(color: Color) -> u8 {
    match color {
        Color::White => 6,
        Color::Black => 1,
    }
}

/// The advance by one square: onto an empty square, if no pin forbids it
/// and the king stays out of danger.
#[verifier::opaque]
pub open spec fn advance(board: Board, from: Position, color: Color) -> Seq<Position> {
    match from.shifted(0, color.forward()) {
        Some(p) => if board.at(p) is None && pin_allows(
            pin_axis(board.placement(), color, from),
            0,
            color.forward(),
        ) {
            if_safe(board, from, color, p)
        } else {
            seq![]
        },
        None => seq![],
    }
}

/// The advance by two squares: from the starting rank, over an empty
/// square onto an empty square, if no pin forbids it and the king stays out
/// of danger.
#[verifier::opaque]
pub open spec fn double_advance(board: Board, from: Position, color: Color) -> Seq<Position> {
    if from.rank == starting_rank(color) {
        match (from.shifted(0, color.forward()), from.shifted(0, 2 * color.forward())) {
            (Some(mid), Some(p)) => if board.at(mid) is None && board.at(p) is None && pin_allows(
                pin_axis(board.placement(), color, from),
                0,
                2 * color.forward(),
            ) {
                if_safe(board, from, color, p)
            } else {
                seq![]
            },
            _ => seq![],
        }
    } else {
        seq![]
    }
}

/// The squares that leave the board when the pawn on `from` captures onto
/// `to`: its own, and in an en passant capture that of the pawn beside it.
pub open spec fn vacated(board: Board, from: Position, to: Position) -> Seq<Position> {
    if board.en_passant_square == Some(to) {
        seq![from, Position { file: to.file, rank: from.rank }]
    } else {
        seq![from]
    }
}

/// The capture toward the file `df` away: onto a square that holds an enemy
/// or is the en passant target, if no pin forbids it and the king stays out
/// of danger once the captured pawn is gone.
#[verifier::opaque]
pub open spec fn capture(board: Board, from: Position, color: Color, df: int) -> Seq<Position> {
    match from.shifted(df, color.forward()) {
        Some(p) => {
            let enemy = match board.at(p) {
                Some(q) => q.color != color,
                None => false,
            };
            if (enemy || board.en_passant_square == Some(p)) && pin_allows(
                pin_axis(board.placement(), color, from),
                df,
                color.forward(),
            ) && king_safe(board, color, vacated(board, from, p), seq![p]) {
                seq![p]
            } else {
                seq![]
            }
        },
        None => seq![],
    }
}

/// The legal destinations of a pawn of `color` on `from`, in the order in
/// which they are produced. With two checks recorded there are none.
pub open spec fn moves(board: Board, from: Position, color: Color) -> Seq<Position> {
    if board.checking_pieces > 1 {
        seq![]
    } else {
        advance(board, from, color) + double_advance(board, from, color) + capture(
            board,
            from,
            color,
            -1,
        ) + capture(board, from, color, 1)
    }
}

/// What the generator of pawn moves has looked up once for all candidates.
pub struct Moves {
    pub from: Position,
    pub color: Color,
    pub king: Option<Position>,
    pub pin: Option<(i8, i8)>,
}

impl Moves {
    /// Whether the record belongs to the pawn on `from` on `board`.
    pub open spec fn fits(self, board: Board) -> bool {
        &&& self.from.wf()
        &&& board.at(self.from) matches Some(p) && p.color == self.color
        &&& self.king == board.king_square(self.color)
        &&& self.king matches Some(k) ==> k.wf()
        &&& match pin_axis(board.placement(), self.color, self.from) {
            Some(axis) => self.pin is Some && self.pin->Some_0.0 == axis.0 && self.pin->Some_0.1
                == axis.1,
            None => self.pin is None,
        }
    }

    /// Looks up the color, the king and the pin of the pawn on `from`.
    pub fn new(board: &Board, from: Position) -> (m: Moves)
        requires
            from.wf(),
            board.at(from) is Some,
        ensures
            m.fits(*board),
            m.from == from,
    {
        let color = board.get(from).unwrap().color;
        Moves {
            from,
            color,
            king: board.find_king(color),
            pin: position_hides_check(board, from, color),
        }
    }

    /// Appends the advance by one square, if it is legal.
    fn move_forwards(&self, board: &Board, dst: &mut Vec<Position>)
        requires
            self.fits(*board),
        ensures
            final(dst)@ == old(dst)@ + advance(*board, self.from, self.color),
    {
        reveal(advance);
        proof {
            lemma_append_nothing(dst@);
        }
        let fw = self.color.forwards();
        if let Some(p) = self.from.offset(0, fw) {
            if board.get(p).is_none() && pin_permits(self.pin, 0, fw) {
                push_if_safe(board, self.from, self.color, self.king, p, dst);
            }
        }
    }

    /// Appends the advance by two squares, if it is legal.
    fn move_2_steps(&self, board: &Board, dst: &mut Vec<Position>)
        requires
            self.fits(*board),
        ensures
            final(dst)@ == old(dst)@ + double_advance(*board, self.from, self.color),
    {
        reveal(double_advance);
        proof {
            lemma_append_nothing(dst@);
        }
        if !(self.from.rank == 6 && self.color == Color::White || self.from.rank == 1 && self.color
            == Color::Black) {
            return ;
        }
        let fw = self.color.forwards();
        let mid = self.from.offset(0, fw);
        let far = self.from.offset(0, 2 * fw);
        if let (Some(mid), Some(p)) = (mid, far) {
            if board.get(mid).is_none() && board.get(p).is_none() && pin_permits(
                self.pin,
                0,
                2 * fw,
            ) {
                push_if_safe(board, self.from, self.color, self.king, p, dst);
            }
        }
    }

    /// Appends the capture toward the file `delta_file` away, if it is legal.
    fn capture(&self, board: &Board, delta_file: i8, dst: &mut Vec<Position>)
        requires
            self.fits(*board),
            -1 <= delta_file <= 1,
        ensures
            final(dst)@ == old(dst)@ + capture(*board, self.from, self.color, delta_file as int),
    {
        reveal(capture);
        proof {
            lemma_append_nothing(dst@);
        }
        let fw = self.color.forwards();
        if let Some(p) = self.from.offset(delta_file, fw) {
            let is_ep = board.en_passant_square() == Some(p);
            let enemy = match board.get(p) {
                Some(q) => q.color != self.color,
                None => false,
            };
            if (enemy || is_ep) && pin_permits(self.pin, delta_file, fw) {
                let blocked = [p];
                assert(blocked@ =~= seq![p]);
                let safe = if is_ep {
                    let cleared = [self.from, Position { file: p.file, rank: self.from.rank }];
                    assert(cleared@ =~= vacated(*board, self.from, p));
                    stays_safe(board, self.king, &cleared, &blocked, self.color)
                } else {
                    let cleared = [self.from];
                    assert(cleared@ =~= vacated(*board, self.from, p));
                    stays_safe(board, self.king, &cleared, &blocked, self.color)
                };
                if safe {
                    dst.push(p);
                    assert(dst@ =~= old(dst)@ + seq![p]);
                }
            }
        }
    }
}

/// Appends the legal destinations of the pawn on `from` to `dst`.
pub fn append_moves(board: &Board, from: Position, dst: &mut Vec<Position>)
    requires
        from.wf(),
        board.at(from) is Some,
    ensures
        final(dst)@ == old(dst)@ + moves(*board, from, board.at(from)->Some_0.color),
{
    let ghost base = dst@;
    let ghost b = *board;
    if board.in_double_check() {
        proof {
            lemma_append_nothing(base);
        }
        return ;
    }
    let m = Moves::new(board, from);
    let ghost c = m.color;
    m.move_forwards(board, dst);
    let ghost s1 = advance(b, from, c);
    m.move_2_steps(board, dst);
    let ghost s2 = s1 + double_advance(b, from, c);
    proof {
        lemma_append_assoc(base, s1, double_advance(b, from, c));
    }
    m.capture(board, -1, dst);
    let ghost s3 = s2 + capture(b, from, c, -1);
    proof {
        lemma_append_assoc(base, s2, capture(b, from, c, -1));
    }
    m.capture(board, 1, dst);
    proof {
        lemma_append_assoc(base, s3, capture(b, from, c, 1));
    }
}

/// Whether a pawn of `color` on `at` would give check: the enemy king
/// stands on one of the two squares diagonally ahead.
pub open spec fn gives_check(board: Board, at: Position, color: Color) -> bool {
    match board.king_square(color.flip()) {
        Some(k) => at.shifted(-1, color.forward()) == Some(k) || at.shifted(1, color.forward())
            == Some(k),
        None => false,
    }
}

/// Whether a pawn of `color` on `at` would give check.
pub fn checks(at: Position, color: Color, board: &Board) -> (r: bool)
    requires
        at.wf(),
    ensures
        r == gives_check(*board, at, color),
{
    match board.find_king(color.other()) {
        Some(k) => {
            let fw = color.forwards();
            at.offset(-1, fw) == Some(k) || at.offset(1, fw) == Some(k)
        },
        None => false,
    }
}

} // verus!
