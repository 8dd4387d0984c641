//! Pieces and their kinds, with their one-letter names.

use vstd::prelude::*;
use crate::board::Board;
use crate::error::Error;
use crate::util::{Color, Move, Position};

pub mod bishop;
pub mod king;
pub mod knight;
pub mod pawn;
pub mod queen;
pub mod rook;
pub mod util;

verus! {

/// The six kinds of chess piece.
#[derive(Debug, PartialEq, Eq, Clone, Copy, Structural)]
pub enum Kind {
    Pawn,
    Rook,
    Knight,
    Bishop,
    Queen,
    King,
}

/// A piece: a kind in a color.
#[derive(Debug, PartialEq, Eq, Clone, Copy, Structural)]
pub struct Piece {
    pub color: Color,
    pub kind: Kind,
}

/// The kind that a letter names, in either case.
pub open spec fn kind_of_letter(c: char) -> Option<Kind> {
    if c == 'p' || c == 'P' {
        Some(Kind::Pawn)
    } else if c == 'r' || c == 'R' {
        Some(Kind::Rook)
    } else if c == 'n' || c == 'N' {
        Some(Kind::Knight)
    } else if c == 'b' || c == 'B' {
        Some(Kind::Bishop)
    } else if c == 'q' || c == 'Q' {
        Some(Kind::Queen)
    } else if c == 'k' || c == 'K' {
        Some(Kind::King)
    } else {
        None
    }
}

/// Whether a character is one of the letters `p r n b q k`, in either case.
pub open spec fn is_piece_letter(c: char) -> bool {
    c == 'p' || c == 'r' || c == 'n' || c == 'b' || c == 'q' || c == 'k' || c == 'P' || c == 'R'
        || c == 'N' || c == 'B' || c == 'Q' || c == 'K'
}

/// The piece that a letter names: upper case is White, lower case Black.
pub open spec fn piece_of_letter(c: char) -> Option<Piece> {
    match kind_of_letter(c) {
        Some(kind) => Some(
            Piece { color: if 'A' <= c <= 'Z' { Color::White } else { Color::Black }, kind },
        ),
        None => None,
    }
}

impl Kind {
    /// The upper-case letter of the kind.
    pub open spec fn letter(self) -> char {
        match self {
            Kind::Pawn => 'P',
            Kind::Rook => 'R',
            Kind::Bishop => 'B',
            Kind::Knight => 'N',
            Kind::Queen => 'Q',
            Kind::King => 'K',
        }
    }

    /// Parses the letter of a kind, in either case. Every other character is
    /// a parsing error.
    pub fn from_name(name: char) -> (r: Result<Kind, Error>)
        ensures
            r == match kind_of_letter(name) {
                Some(k) => Ok::<Kind, Error>(k),
                None => Err(Error::ParsingError),
            },
            r is Err <==> !is_piece_letter(name),
    {
        match name {
            'p' | 'P' => Ok(Kind::Pawn),
            'r' | 'R' => Ok(Kind::Rook),
            'n' | 'N' => Ok(Kind::Knight),
            'b' | 'B' => Ok(Kind::Bishop),
            'q' | 'Q' => Ok(Kind::Queen),
            'k' | 'K' => Ok(Kind::King),
            _ => Err(Error::ParsingError),
        }
    }

    /// The upper-case letter of the kind.
    pub fn name(&self) -> (c: char)
        ensures
            c == self.letter(),
    {
        match *self {
            Kind::Pawn => 'P',
            Kind::Rook => 'R',
            Kind::Bishop => 'B',
            Kind::Knight => 'N',
            Kind::Queen => 'Q',
            Kind::King => 'K',
        }
    }
}

impl Piece {
    /// The letter of the piece: upper case for White, lower case for Black.
    pub open spec fn letter(self) -> char {
        match self.color {
            Color::White => self.kind.letter(),
            Color::Black => match self.kind {
                Kind::Pawn => 'p',
                Kind::Rook => 'r',
                Kind::Bishop => 'b',
                Kind::Knight => 'n',
                Kind::Queen => 'q',
                Kind::King => 'k',
            },
        }
    }

    /// The figurine of the piece.
    pub open spec fn figurine(self) -> char {
        match (self.color, self.kind) {
            (Color::White, Kind::Pawn) => '\u{265F}',
            (Color::Black, Kind::Pawn) => '\u{2659}',
            (Color::White, Kind::Rook) => '\u{265C}',
            (Color::Black, Kind::Rook) => '\u{2656}',
            (Color::White, Kind::Knight) => '\u{265E}',
            (Color::Black, Kind::Knight) => '\u{2658}',
            (Color::White, Kind::Bishop) => '\u{265D}',
            (Color::Black, Kind::Bishop) => '\u{2657}',
            (Color::White, Kind::Queen) => '\u{265B}',
            (Color::Black, Kind::Queen) => '\u{2655}',
            (Color::White, Kind::King) => '\u{265A}',
            (Color::Black, Kind::King) => '\u{2654}',
        }
    }

    /// A piece of a kind in a color.
    pub fn new(color: Color, kind: Kind) -> (p: Piece)
        ensures
            p == (Piece { color, kind }),
    {
        Piece { color, kind }
    }

    /// The figurine of the piece.
    pub fn emoji(&self) -> (c: char)
        ensures
            c == self.figurine(),
    {
        match (self.color, self.kind) {
            (Color::White, Kind::Pawn) => '\u{265F}',
            (Color::Black, Kind::Pawn) => '\u{2659}',
            (Color::White, Kind::Rook) => '\u{265C}',
            (Color::Black, Kind::Rook) => '\u{2656}',
            (Color::White, Kind::Knight) => '\u{265E}',
            (Color::Black, Kind::Knight) => '\u{2658}',
            (Color::White, Kind::Bishop) => '\u{265D}',
            (Color::Black, Kind::Bishop) => '\u{2657}',
            (Color::White, Kind::Queen) => '\u{265B}',
            (Color::Black, Kind::Queen) => '\u{2655}',
            (Color::White, Kind::King) => '\u{265A}',
            (Color::Black, Kind::King) => '\u{2654}',
        }
    }

    /// Parses the letter of a piece: upper case is White, lower case Black.
    /// Every character that is not a piece letter is a parsing error.
    pub fn from_name(name: char) -> (r: Result<Piece, Error>)
        ensures
            r == match piece_of_letter(name) {
                Some(p) => Ok::<Piece, Error>(p),
                None => Err(Error::ParsingError),
            },
            r is Err <==> !is_piece_letter(name),
    {
        match Kind::from_name(name) {
            Ok(kind) => Ok(
                Piece { color: if 'A' <= name && name <= 'Z' { Color::White } else { Color::Black }, kind },
            ),
            Err(e) => Err(e),
        }
    }

    /// The letter of the piece: upper case for White, lower case for Black.
    pub fn name(&self) -> (c: char)
        ensures
            c == self.letter(),
    {
        match self.color {
            Color::White => self.kind.name(),
            Color::Black => match self.kind {
                Kind::Pawn => 'p',
                Kind::Rook => 'r',
                Kind::Bishop => 'b',
                Kind::Knight => 'n',
                Kind::Queen => 'q',
                Kind::King => 'k',
            },
        }
    }
}

/// The legal destinations of the piece on `from`, moved as a piece of
/// `kind`, in the order in which they are produced. An empty square has
/// none.
pub open spec fn destinations(board: Board, from: Position, kind: Kind) -> Seq<Position> {
    match board.at(from) {
        Some(p) => match kind {
            Kind::Pawn => pawn::moves(board, from, p.color),
            Kind::Rook => rook::moves(board, from, p.color),
            Kind::Knight => knight::moves(board, from, p.color),
            Kind::Bishop => bishop::moves(board, from, p.color),
            Kind::Queen => queen::moves(board, from, p.color),
            Kind::King => king::moves(board, from, p.color),
        },
        None => seq![],
    }
}

/// The legal destinations of whatever stands on `from`.
pub open spec fn legal_moves(board: Board, from: Position) -> Seq<Position> {
    match board.at(from) {
        Some(p) => destinations(board, from, p.kind),
        None => seq![],
    }
}

/// Whether `piece`, standing on `at`, would give check to the enemy king.
pub open spec fn gives_check(piece: Piece, board: Board, at: Position) -> bool {
    match piece.kind {
        Kind::Pawn => pawn::gives_check(board, at, piece.color),
        Kind::Rook => rook::gives_check(board, at, piece.color),
        Kind::Knight => knight::gives_check(board, at, piece.color),
        Kind::Bishop => bishop::gives_check(board, at, piece.color),
        Kind::Queen => queen::gives_check(board, at, piece.color),
        Kind::King => false,
    }
}

/// The legal destinations of one piece, handed out one at a time.
pub struct Moves {
    pub squares: Vec<Position>,
    pub next: usize,
}

impl Moves {
    /// The destinations not handed out yet.
    pub open spec fn remaining(self) -> Seq<Position> {
        if self.next <= self.squares@.len() {
            self.squares@.skip(self.next as int)
        } else {
            seq![]
        }
    }

    /// Computes the legal destinations of the piece on `from`.
    pub fn new(board: &Board, from: Position) -> (m: Moves)
        requires
            from.wf(),
            board.at(from) is Some,
        ensures
            m.remaining() == legal_moves(*board, from),
    {
        let piece = board.get(from).unwrap();
        piece.moves(board, from)
    }

    /// Hands out the next destination, if any is left.
    pub fn next(&mut self) -> (p: Option<Position>)
        ensures
            old(self).remaining().len() == 0 ==> p is None && final(self).remaining().len() == 0,
            old(self).remaining().len() > 0 ==> p == Some(old(self).remaining()[0]),
            old(self).remaining().len() > 0 ==> final(self).remaining() == old(
                self,
            ).remaining().skip(1),
    {
        if self.next < self.squares.len() {
            let p = self.squares[self.next];
            self.next += 1;
            assert(self.remaining() =~= old(self).remaining().skip(1));
            Some(p)
        } else {
            None
        }
    }
}

impl Piece {
    /// Appends the legal destinations of the piece on `from`, moved as this
    /// piece's kind, to `dst`.
    pub fn append_moves(&self, board: &Board, from: Position, dst: &mut Vec<Position>)
        requires
            from.wf(),
            board.at(from) is Some,
        ensures
            final(dst)@ == old(dst)@ + destinations(*board, from, self.kind),
    {
        match self.kind {
            Kind::Pawn => pawn::append_moves(board, from, dst),
            Kind::Rook => rook::append_moves(board, from, dst),
            Kind::Knight => knight::append_moves(board, from, dst),
            Kind::Bishop => bishop::append_moves(board, from, dst),
            Kind::Queen => queen::append_moves(board, from, dst),
            Kind::King => king::append_moves(board, from, dst),
        }
    }

    /// The legal destinations of the piece on `from`, moved as this piece's
    /// kind.
    pub fn moves(&self, board: &Board, from: Position) -> (m: Moves)
        requires
            from.wf(),
            board.at(from) is Some,
        ensures
            m.remaining() == destinations(*board, from, self.kind),
    {
        let mut squares: Vec<Position> = Vec::new();
        self.append_moves(board, from, &mut squares);
        assert(squares@ =~= destinations(*board, from, self.kind));
        assert(squares@.skip(0) =~= squares@);
        Moves { squares, next: 0 }
    }

    /// Whether the move is legal for the piece on its source square, moved as
    /// this piece's kind.
    pub fn can_move(&self, move_: Move, board: &Board) -> (r: bool)
        requires
            move_.from.wf(),
            board.at(move_.from) is Some,
        ensures
            r == destinations(*board, move_.from, self.kind).contains(move_.to),
    {
        let mut squares: Vec<Position> = Vec::new();
        self.append_moves(board, move_.from, &mut squares);
        assert(squares@ =~= destinations(*board, move_.from, self.kind));
        crate::piece::util::listed(squares.as_slice(), move_.to)
    }

    /// Whether this piece, standing on `at`, would give check to the enemy
    /// king.
    pub fn checks(&self, at: Position, board: &Board) -> (r: bool)
        requires
            at.wf(),
        ensures
            r == gives_check(*self, *board, at),
    {
        match self.kind {
            Kind::Pawn => pawn::checks(at, self.color, board),
            Kind::Rook => rook::checks(at, self.color, board),
            Kind::Knight => knight::checks(at, self.color, board),
            Kind::Bishop => bishop::checks(at, self.color, board),
            Kind::Queen => queen::checks(at, self.color, board),
            Kind::King => king::checks(at, self.color, board),
        }
    }
}

/// The letter of a piece names that piece, and a piece letter is never a
/// digit, a slash or a blank.
pub proof fn lemma_piece_letter_round_trip(p: Piece)
    ensures
        piece_of_letter(p.letter()) == Some(p),
        is_piece_letter(p.letter()),
{
}

} // verus!
