//! The board: an 8x8 grid of squares and the state that goes with it.

use vstd::prelude::*;
use vstd::array::spec_array_update;
use vstd::string::*;
use crate::text::push_char;
use crate::invariants::{lemma_starting_position_is_sound, sound};
use crate::piece::{Kind, Piece};
use crate::util::{Color, Position};

pub mod fen;
pub mod round_trip;

verus! {

/// The state of a chess board.
///
/// `tiles[rank][file]` is the occupant of a square; rank index 0 is the
/// eighth rank.
#[derive(Debug, PartialEq, Eq, Clone, Copy)]
pub struct Board {
    pub tiles: [[Option<Piece>; 8]; 8],
    pub next_to_move: Color,
    pub can_castle_white_kingside: bool,
    pub can_castle_white_queenside: bool,
    pub can_castle_black_kingside: bool,
    pub can_castle_black_queenside: bool,
    pub en_passant_square: Option<Position>,
    pub halfmove_counter: u16,
    pub move_number: u16,
    pub checking_pieces: u8,
}

/// The kind of piece that starts on a file of the home ranks.
pub open spec fn home_kind(file: u8) -> Kind {
    if file == 0 || file == 7 {
        Kind::Rook
    } else if file == 1 || file == 6 {
        Kind::Knight
    } else if file == 2 || file == 5 {
        Kind::Bishop
    } else if file == 3 {
        Kind::Queen
    } else {
        Kind::King
    }
}

/// The occupant of a square at the start of a game.
pub open spec fn starting_piece(p: Position) -> Option<Piece> {
    if p.rank == 0 {
        Some(Piece { color: Color::Black, kind: home_kind(p.file) })
    } else if p.rank == 1 {
        Some(Piece { color: Color::Black, kind: Kind::Pawn })
    } else if p.rank == 6 {
        Some(Piece { color: Color::White, kind: Kind::Pawn })
    } else if p.rank == 7 {
        Some(Piece { color: Color::White, kind: home_kind(p.file) })
    } else {
        None
    }
}

/// Whether `board` is the position at the start of a game: every piece on
/// its home square, White to move, all castling rights held, move number 1.
pub open spec fn is_starting_position(board: Board) -> bool {
    &&& forall|p: Position| p.wf() ==> board.at(p) == starting_piece(p)
    &&& board.next_to_move == Color::White
    &&& board.can_castle_white_kingside
    &&& board.can_castle_white_queenside
    &&& board.can_castle_black_kingside
    &&& board.can_castle_black_queenside
    &&& board.en_passant_square is None
    &&& board.halfmove_counter == 0
    &&& board.move_number == 1
    &&& board.checking_pieces == 0
}

/// The character that shows a square: the figurine of its piece, or a dot.
pub open spec fn cell_char(v: Option<Piece>) -> char {
    match v {
        Some(p) => p.figurine(),
        None => '.',
    }
}

/// The first `n` squares of a rank as text, each after a space.
pub open spec fn cells_text(board: Board, rank: u8, n: int) -> Seq<char>
    decreases n,
{
    if n <= 0 {
        seq![]
    } else {
        cells_text(board, rank, n - 1) + seq![
            ' ',
            cell_char(board.at(Position { file: (n - 1) as u8, rank })),
        ]
    }
}

/// One line of the board as text: the number of the row, counted from the
/// top, its squares, and a line feed.
pub open spec fn line_text(board: Board, rank: u8) -> Seq<char> {
    seq![(rank + 49) as char] + cells_text(board, rank, 8) + seq!['\n']
}

/// The first `n` lines of the board as text.
pub open spec fn lines_text(board: Board, n: int) -> Seq<char>
    decreases n,
{
    if n <= 0 {
        seq![]
    } else {
        lines_text(board, n - 1) + line_text(board, (n - 1) as u8)
    }
}

/// The board as text: eight lines from the eighth rank down, and a line
/// that letters the files.
pub open spec fn board_text(board: Board) -> Seq<char> {
    lines_text(board, 8) + "  A B C D E F G H"@ + seq!['\n']
}

impl Default for Board {
    /// The position at the start of a game.
    fn default() -> (board: Board)
        ensures
            is_starting_position(board),
            sound(board),
    {
        let home = |color: Color| -> (row: [Option<Piece>; 8])
            ensures
                forall|f: int|
                    0 <= f < 8 ==> row[f] == Some(Piece { color, kind: home_kind(f as u8) }),
            {
                [
                    Some(Piece { color, kind: Kind::Rook }),
                    Some(Piece { color, kind: Kind::Knight }),
                    Some(Piece { color, kind: Kind::Bishop }),
                    Some(Piece { color, kind: Kind::Queen }),
                    Some(Piece { color, kind: Kind::King }),
                    Some(Piece { color, kind: Kind::Bishop }),
                    Some(Piece { color, kind: Kind::Knight }),
                    Some(Piece { color, kind: Kind::Rook }),
                ]
            };
        let black_pawn = Some(Piece { color: Color::Black, kind: Kind::Pawn });
        let white_pawn = Some(Piece { color: Color::White, kind: Kind::Pawn });
        let board = Board {
            tiles: [
                home(Color::Black),
                [black_pawn; 8],
                [None; 8],
                [None; 8],
                [None; 8],
                [None; 8],
                [white_pawn; 8],
                home(Color::White),
            ],
            next_to_move: Color::White,
            can_castle_white_kingside: true,
            can_castle_white_queenside: true,
            can_castle_black_kingside: true,
            can_castle_black_queenside: true,
            en_passant_square: None,
            halfmove_counter: 0,
            move_number: 1,
            checking_pieces: 0,
        };
        assert forall|p: Position| p.wf() implies board.at(p) == starting_piece(p) by {
            assert(board.tiles[p.rank as int][p.file as int] == starting_piece(p));
        }
        proof {
            lemma_starting_position_is_sound(board);
        }
        board
    }
}

impl Board {
    /// The occupant of a square.
    pub open spec fn at(self, p: Position) -> Option<Piece> {
        self.tiles[p.rank as int][p.file as int]
    }

    /// The board with the occupant of one square replaced.
    pub open spec fn with_piece(self, p: Position, v: Option<Piece>) -> Board {
        Board {
            tiles: spec_array_update(
                self.tiles,
                p.rank as int,
                spec_array_update(self.tiles[p.rank as int], p.file as int, v),
            ),
            ..self
        }
    }

    /// The structural invariant: an en passant target, if any, is a square
    /// of the board, and at most two checks are recorded.
    pub open spec fn wf(self) -> bool {
        &&& self.en_passant_square matches Some(p) ==> p.wf()
        &&& self.checking_pieces <= 2
    }

    /// The square with the given number in scan order: the eighth rank
    /// first, each rank from the a-file to the h-file.
    pub open spec fn square(idx: int) -> Position {
        Position { file: (idx % 8) as u8, rank: (idx / 8) as u8 }
    }

    /// The first square at or after number `idx` in scan order that holds
    /// `piece`.
    pub open spec fn find_from(self, piece: Piece, idx: int) -> Option<Position>
        decreases 64 - idx,
    {
        if idx < 0 || idx >= 64 {
            None
        } else if self.at(Self::square(idx)) == Some(piece) {
            Some(Self::square(idx))
        } else {
            self.find_from(piece, idx + 1)
        }
    }

    /// The square of the king of `color`: the first in scan order, should
    /// there be several.
    pub open spec fn king_square(self, color: Color) -> Option<Position> {
        self.find_from(Piece { color, kind: Kind::King }, 0)
    }

    /// Whether `color` still holds the right to castle on the kingside.
    pub open spec fn castle_kingside(self, color: Color) -> bool {
        match color {
            Color::White => self.can_castle_white_kingside,
            Color::Black => self.can_castle_black_kingside,
        }
    }

    /// Whether `color` still holds the right to castle on the queenside.
    pub open spec fn castle_queenside(self, color: Color) -> bool {
        match color {
            Color::White => self.can_castle_white_queenside,
            Color::Black => self.can_castle_black_queenside,
        }
    }

    /// The board once `color` has lost the right to castle on the kingside.
    pub open spec fn without_kingside(self, color: Color) -> Board {
        match color {
            Color::White => Board { can_castle_white_kingside: false, ..self },
            Color::Black => Board { can_castle_black_kingside: false, ..self },
        }
    }

    /// The board once `color` has lost the right to castle on the queenside.
    pub open spec fn without_queenside(self, color: Color) -> Board {
        match color {
            Color::White => Board { can_castle_white_queenside: false, ..self },
            Color::Black => Board { can_castle_black_queenside: false, ..self },
        }
    }

    /// The board with the turn passed on: the move number grows when Black
    /// has just moved.
    pub open spec fn switched(self) -> Board {
        Board {
            next_to_move: self.next_to_move.flip(),
            move_number: if self.next_to_move == Color::Black {
                (self.move_number + 1) as u16
            } else {
                self.move_number
            },
            ..self
        }
    }

    /// The grid: `tiles()[rank][file]`, the eighth rank first.
    pub fn tiles(&self) -> (t: &[[Option<Piece>; 8]; 8])
        ensures
            *t == self.tiles,
    {
        &self.tiles
    }

    /// The color that is next to move.
    pub fn next_to_move(&self) -> (c: Color)
        ensures
            c == self.next_to_move,
    {
        self.next_to_move
    }

    /// Passes the turn to the other color and increments the move number if
    /// Black was to move.
    pub fn switch_next_to_move(&mut self)
        requires
            old(self).next_to_move == Color::Black ==> old(self).move_number < u16::MAX,
        ensures
            *final(self) == old(self).switched(),
    {
        if self.next_to_move == Color::Black {
            self.move_number += 1;
        }
        self.next_to_move = self.next_to_move.other();
    }

    /// The square onto which a pawn may capture a pawn that has just advanced
    /// two ranks.
    pub fn en_passant_square(&self) -> (p: Option<Position>)
        ensures
            p == self.en_passant_square,
    {
        self.en_passant_square
    }

    /// Sets or clears the en passant target.
    pub fn set_en_passant_square(&mut self, eps: Option<Position>)
        ensures
            *final(self) == (Board { en_passant_square: eps, ..*old(self) }),
    {
        self.en_passant_square = eps;
    }

    /// Whether `color` still holds the right to castle on the kingside.
    pub fn can_castle_kingside(&self, color: Color) -> (b: bool)
        ensures
            b == self.castle_kingside(color),
    {
        match color {
            Color::White => self.can_castle_white_kingside,
            Color::Black => self.can_castle_black_kingside,
        }
    }

    /// Whether `color` still holds the right to castle on the queenside.
    pub fn can_castle_queenside(&self, color: Color) -> (b: bool)
        ensures
            b == self.castle_queenside(color),
    {
        match color {
            Color::White => self.can_castle_white_queenside,
            Color::Black => self.can_castle_black_queenside,
        }
    }

    /// Marks that `color` can no longer castle on the kingside.
    pub fn cannot_castle_kingside(&mut self, color: Color)
        ensures
            *final(self) == old(self).without_kingside(color),
    {
        match color {
            Color::White => self.can_castle_white_kingside = false,
            Color::Black => self.can_castle_black_kingside = false,
        }
    }

    /// Marks that `color` can no longer castle on the queenside.
    pub fn cannot_castle_queenside(&mut self, color: Color)
        ensures
            *final(self) == old(self).without_queenside(color),
    {
        match color {
            Color::White => self.can_castle_white_queenside = false,
            Color::Black => self.can_castle_black_queenside = false,
        }
    }

    /// Sets the halfmove counter to zero.
    pub fn reset_halvmove_counter(&mut self)
        ensures
            *final(self) == (Board { halfmove_counter: 0, ..*old(self) }),
    {
        self.halfmove_counter = 0;
    }

    /// Whether a check on the side to move is recorded.
    pub fn in_check(&self) -> (b: bool)
        ensures
            b == (self.checking_pieces > 0),
    {
        self.checking_pieces > 0
    }

    /// Whether two checks on the side to move are recorded.
    pub fn in_double_check(&self) -> (b: bool)
        ensures
            b == (self.checking_pieces > 1),
    {
        self.checking_pieces > 1
    }

    /// Looks for the king of `color`, scanning the eighth rank first and each
    /// rank from the a-file.
    pub fn find_king(&self, color: Color) -> (k: Option<Position>)
        ensures
            k == self.king_square(color),
            k matches Some(p) ==> p.wf() && self.at(p) == Some(
                Piece { color, kind: Kind::King },
            ),
    {
        let king = Piece { color, kind: Kind::King };
        let mut idx: u8 = 0;
        while idx < 64
            invariant
                idx <= 64,
                king == (Piece { color, kind: Kind::King }),
                self.king_square(color) == self.find_from(king, idx as int),
            decreases 64 - idx,
        {
            let pos = Position { file: idx % 8, rank: idx / 8 };
            if self.get(pos) == Some(king) {
                return Some(pos);
            }
            idx += 1;
        }
        None
    }

    /// The position of the king of `color`.
    pub fn get_king_position(&self, color: Color) -> (p: Position)
        requires
            self.king_square(color) is Some,
        ensures
            Some(p) == self.king_square(color),
            p.wf(),
            self.at(p) == Some(Piece { color, kind: Kind::King }),
    {
        self.find_king(color).unwrap()
    }

    /// Renders the board as text, one line for each rank and one for the
    /// letters of the files.
    pub fn to_string(&self) -> (text: String)
        ensures
            text@ == board_text(*self),
    {
        let mut out = String::new();
        let mut rank: u8 = 0;
        assert(out@ =~= lines_text(*self, 0));
        while rank < 8
            invariant
                rank <= 8,
                out@ == lines_text(*self, rank as int),
            decreases 8 - rank,
        {
            let ghost before = out@;
            push_char(&mut out, (rank + 49) as char);
            let mut file: u8 = 0;
            assert(out@ =~= before + seq![(rank + 49) as char] + cells_text(*self, rank, 0));
            while file < 8
                invariant
                    file <= 8,
                    rank < 8,
                    out@ == before + seq![(rank + 49) as char] + cells_text(
                        *self,
                        rank,
                        file as int,
                    ),
                decreases 8 - file,
            {
                push_char(&mut out, ' ');
                let c = match self.get(Position { file, rank }) {
                    Some(p) => p.emoji(),
                    None => '.',
                };
                push_char(&mut out, c);
                assert(out@ =~= before + seq![(rank + 49) as char] + cells_text(
                    *self,
                    rank,
                    file as int + 1,
                ));
                file += 1;
            }
            push_char(&mut out, '\n');
            assert(out@ =~= lines_text(*self, rank as int + 1));
            rank += 1;
        }
        out.append("  A B C D E F G H");
        push_char(&mut out, '\n');
        out
    }

    /// The occupant of a square.
    pub fn get(&self, p: Position) -> (v: Option<Piece>)
        requires
            p.wf(),
        ensures
            v == self.at(p),
    {
        self.tiles[p.rank as usize][p.file as usize]
    }

    /// Replaces the occupant of a square.
    pub fn set(&mut self, p: Position, v: Option<Piece>)
        requires
            p.wf(),
        ensures
            *final(self) == old(self).with_piece(p, v),
    {
        self.tiles[p.rank as usize][p.file as usize] = v;
    }
}

} // verus!
