//! Colors, squares and moves, with their coordinate notation.

use vstd::prelude::*;
use vstd::string::*;
use crate::board::Board;
use crate::error::Error;
use crate::piece::{gives_check, Kind};
use crate::text::{chars_of, push_char, put};

verus! {

/// The two sides of a game.
#[derive(Debug, PartialEq, Eq, Clone, Copy, Structural)]
pub enum Color {
    White,
    Black,
}

impl Color {
    /// The opposing side.
    pub open spec fn flip(self) -> Color {
        match self {
            Color::White => Color::Black,
            Color::Black => Color::White,
        }
    }

    /// The rank delta of one pawn step of this color. Rank index 0 is the
    /// eighth rank, so White advances toward smaller indices.
    pub open spec fn forward(self) -> int {
        match self {
            Color::White => -1,
            Color::Black => 1,
        }
    }

    /// The opposing side.
    pub fn other(&self) -> (c: Color)
        ensures
            c == self.flip(),
    {
        match self {
            Color::White => Color::Black,
            Color::Black => Color::White,
        }
    }

    /// The rank delta of one pawn step of this color.
    pub fn forwards(&self) -> (d: i8)
        ensures
            d == self.forward(),
    {
        match self {
            Color::White => -1,
            Color::Black => 1,
        }
    }

    /// The rank delta against the direction of this color's pawns.
    pub fn backwards(&self) -> (d: i8)
        ensures
            d == -self.forward(),
    {
        -self.forwards()
    }
}

/// A square, by file (0 is the a-file) and rank index (0 is the eighth rank,
/// 7 the first).
#[derive(Debug, PartialEq, Eq, Clone, Copy, Structural)]
pub struct Position {
    pub file: u8,
    pub rank: u8,
}

/// Whether the pair of coordinates names a square of the board.
pub open spec fn on_board(file: int, rank: int) -> bool {
    0 <= file < 8 && 0 <= rank < 8
}

/// The letter of a file, `a` to `h`.
pub open spec fn file_char(file: u8) -> char {
    (file + 97) as char
}

/// The digit of a rank index: index 7 is written `1`, index 0 is written `8`.
pub open spec fn rank_char(rank: u8) -> char {
    (56 - rank) as char
}

/// Whether a character is a file letter, `a` to `h`.
pub open spec fn is_file_char(c: char) -> bool {
    'a' <= c <= 'h'
}

/// Whether a character is a rank digit, `1` to `8`.
pub open spec fn is_rank_char(c: char) -> bool {
    '1' <= c <= '8'
}

/// The square that a two-character name denotes, if it is one.
pub open spec fn parse_square(s: Seq<char>) -> Option<Position> {
    if s.len() == 2 && is_file_char(s[0]) && is_rank_char(s[1]) {
        Some(Position { file: (s[0] as u32 - 97) as u8, rank: (56 - s[1] as u32) as u8 })
    } else {
        None
    }
}

impl Position {
    /// Whether this square lies on the board.
    pub open spec fn wf(self) -> bool {
        self.file < 8 && self.rank < 8
    }

    /// The square `dx` files and `dy` rank indices away, if it is on the board.
    pub open spec fn shifted(self, dx: int, dy: int) -> Option<Position> {
        if on_board(self.file + dx, self.rank + dy) {
            Some(Position { file: (self.file + dx) as u8, rank: (self.rank + dy) as u8 })
        } else {
            None
        }
    }

    /// The algebraic name of the square, such as `e4`.
    pub open spec fn text(self) -> Seq<char> {
        seq![file_char(self.file), rank_char(self.rank)]
    }

    /// The square with the given coordinates, if they lie on the board.
    pub fn new(file: u8, rank: u8) -> (p: Option<Position>)
        ensures
            p == (if file < 8 && rank < 8 {
                Some(Position { file, rank })
            } else {
                None
            }),
    {
        if file < 8 && rank < 8 {
            Some(Position { file, rank })
        } else {
            None
        }
    }

    /// The square with the given signed coordinates, if they lie on the
    /// board.
    pub fn new_i8(file: i8, rank: i8) -> (p: Option<Position>)
        ensures
            p == (if on_board(file as int, rank as int) {
                Some(Position { file: file as u8, rank: rank as u8 })
            } else {
                None
            }),
    {
        if 0 <= file && file < 8 && 0 <= rank && rank < 8 {
            Some(Position { file: file as u8, rank: rank as u8 })
        } else {
            None
        }
    }

    /// Builds a square from coordinates already known to be on the board.
    pub fn new_unchecked(file: u8, rank: u8) -> (p: Position)
        requires
            file < 8,
            rank < 8,
        ensures
            p == (Position { file, rank }),
    {
        Position { file, rank }
    }

    /// Builds a square from signed coordinates already known to be on the board.
    pub fn new_i8_unchecked(file: i8, rank: i8) -> (p: Position)
        requires
            on_board(file as int, rank as int),
        ensures
            p == (Position { file: file as u8, rank: rank as u8 }),
    {
        Position { file: file as u8, rank: rank as u8 }
    }

    /// The file index: 0 is the a-file.
    pub fn file(&self) -> (f: u8)
        ensures
            f == self.file,
    {
        self.file
    }

    /// The rank index: 0 is the eighth rank.
    pub fn rank(&self) -> (r: u8)
        ensures
            r == self.rank,
    {
        self.rank
    }

    /// The square `dx` files and `dy` rank indices away, if it is on the board.
    pub fn offset(&self, dx: i8, dy: i8) -> (p: Option<Position>)
        requires
            self.wf(),
            -120 <= dx <= 120,
            -120 <= dy <= 120,
        ensures
            p == self.shifted(dx as int, dy as int),
    {
        Position::new_i8(self.file as i8 + dx, self.rank as i8 + dy)
    }

    /// Parses the name of a square from exactly two characters, a file letter
    /// `a`-`h` and a rank digit `1`-`8`.
    pub fn parse(s: &str) -> (r: Result<Position, Error>)
        ensures
            r == match parse_square(s@) {
                Some(p) => Ok::<Position, Error>(p),
                None => Err(Error::ParsingError),
            },
    {
        let chars = chars_of(s);
        Position::parse_chars(&chars, 0, chars.len())
    }

    /// Parses the name of a square from the characters `start..end` of `chars`.
    pub fn parse_chars(chars: &Vec<char>, start: usize, end: usize) -> (r: Result<Position, Error>)
        requires
            start <= end <= chars.len(),
        ensures
            r == match parse_square(chars@.subrange(start as int, end as int)) {
                Some(p) => Ok::<Position, Error>(p),
                None => Err(Error::ParsingError),
            },
    {
        if end - start != 2 {
            return Err(Error::ParsingError);
        }
        let f: char = chars[start];
        let r: char = chars[start + 1];
        if 'a' <= f && f <= 'h' && '1' <= r && r <= '8' {
            Ok(Position { file: (f as u32 - 97) as u8, rank: (56 - r as u32) as u8 })
        } else {
            Err(Error::ParsingError)
        }
    }

    /// Appends the algebraic name of the square to `s`.
    pub fn write_to(&self, s: &mut String)
        requires
            self.wf(),
        ensures
            final(s)@ == old(s)@ + self.text(),
    {
        push_char(s, (self.file + 97) as char);
        push_char(s, (56 - self.rank) as char);
        assert(s@ =~= old(s)@ + self.text());
    }

    /// The algebraic name of the square, such as `e4`.
    pub fn to_string(&self) -> (s: String)
        requires
            self.wf(),
        ensures
            s@ == self.text(),
    {
        let mut s = String::new();
        self.write_to(&mut s);
        assert(s@ =~= self.text());
        s
    }
}

impl From<(u8, u8)> for Position {
    fn from(pair: (u8, u8)) -> (p: Position) {
        Position { file: pair.0, rank: pair.1 }
    }
}

impl vstd::std_specs::convert::FromSpecImpl<(u8, u8)> for Position {
    open spec fn obeys_from_spec() -> bool {
        true
    }

    open spec fn from_spec(pair: (u8, u8)) -> Position {
        Position { file: pair.0, rank: pair.1 }
    }
}

impl core::str::FromStr for Position {
    type Err = Error;

    /// Parses the name of a square from exactly two characters, a file letter
    /// `a`-`h` and a rank digit `1`-`8`; anything else is a parsing error.
    fn from_str(s: &str) -> (r: Result<Position, Error>)
        ensures
            r == match parse_square(s@) {
                Some(p) => Ok::<Position, Error>(p),
                None => Err(Error::ParsingError),
            },
            r matches Ok(p) ==> p.wf(),
    {
        Position::parse(s)
    }
}

/// Parsing the name of a square gives the square back.
pub proof fn lemma_square_round_trip(p: Position)
    requires
        p.wf(),
    ensures
        parse_square(p.text()) == Some(p),
{
}

/// A move of one piece from a square to a square. Castling, en passant and
/// promotion are recognised from the board when the move is applied.
#[derive(Debug, PartialEq, Eq, Clone, Copy, Structural)]
pub struct Move {
    pub from: Position,
    pub to: Position,
}

/// The move that four characters of coordinate notation denote, if any.
pub open spec fn parse_arabic(s: Seq<char>) -> Option<Move> {
    if s.len() == 4 {
        match (parse_square(s.subrange(0, 2)), parse_square(s.subrange(2, 4))) {
            (Some(from), Some(to)) => Some(Move { from, to }),
            _ => None,
        }
    } else {
        None
    }
}

/// What coordinate notation expects at a place of its text.
#[derive(Debug, PartialEq, Eq, Clone, Copy, Structural)]
pub enum Expected {
    /// A file letter, `a` to `h`.
    File,
    /// A rank digit, `1` to `8`.
    Rank,
    /// The end of the text.
    End,
}

/// Where a text stops being coordinate notation, and what was expected
/// there.
#[derive(Debug, PartialEq, Eq, Clone, Copy, Structural)]
pub struct Fault {
    pub at: usize,
    pub expected: Expected,
}

/// What coordinate notation expects at index `i`: file letters at 0 and 2,
/// rank digits at 1 and 3, and the end at 4.
pub open spec fn expected_at(i: int) -> Expected {
    if i >= 4 {
        Expected::End
    } else if i % 2 == 0 {
        Expected::File
    } else {
        Expected::Rank
    }
}

/// Whether the text holds what coordinate notation expects at index `i`.
pub open spec fn fits_at(s: Seq<char>, i: int) -> bool {
    match expected_at(i) {
        Expected::File => i < s.len() && is_file_char(s[i]),
        Expected::Rank => i < s.len() && is_rank_char(s[i]),
        Expected::End => i >= s.len(),
    }
}

/// The first index from `i` on, up to 4, at which the text is not what
/// coordinate notation expects.
pub open spec fn arabic_fault_from(s: Seq<char>, i: int) -> Option<int>
    decreases 5 - i,
{
    if i > 4 {
        None
    } else if !fits_at(s, i) {
        Some(i)
    } else {
        arabic_fault_from(s, i + 1)
    }
}

/// The first place at which a text is not coordinate notation, if there is
/// one: a character that is not the file letter or rank digit expected, the
/// end of a text that is too short, or the fifth character of one that is
/// too long.
pub open spec fn arabic_fault(s: Seq<char>) -> Option<Fault> {
    match arabic_fault_from(s, 0) {
        Some(i) => Some(Fault { at: i as usize, expected: expected_at(i) }),
        None => None,
    }
}

/// The letter that long notation writes for a kind: none for a pawn.
pub open spec fn kind_text(kind: Kind) -> Seq<char> {
    if kind == Kind::Pawn {
        seq![]
    } else {
        seq![kind.letter()]
    }
}

/// A mark that is written only under a condition.
pub open spec fn mark(present: bool, c: char) -> Seq<char> {
    if present {
        seq![c]
    } else {
        seq![]
    }
}

/// The move in long algebraic notation, on the board before the move is
/// made; nothing if the source square is empty.
///
/// A king that goes two files toward the h-file is written `0-0`, one that
/// goes two files toward the a-file `0-0-0`. Every other move is written as
/// the letter of the piece (none for a pawn), the source square, `x` if the
/// destination is occupied, the destination square, the letter of
/// `promotion` if one is given, and `+` if the piece gives check from its
/// destination.
pub open spec fn algebraic_text(mv: Move, board: Board, promotion: Option<Kind>) -> Option<Seq<char>> {
    match board.at(mv.from) {
        None => None,
        Some(piece) => if piece.kind == Kind::King && mv.to.file == mv.from.file + 2 {
            Some("0-0"@)
        } else if piece.kind == Kind::King && mv.to.file + 2 == mv.from.file {
            Some("0-0-0"@)
        } else {
            Some(
                kind_text(piece.kind) + mv.from.text() + mark(board.at(mv.to) is Some, 'x')
                    + mv.to.text() + (match promotion {
                    Some(kind) => seq![kind.letter()],
                    None => seq![],
                }) + mark(gives_check(piece, board, mv.to), '+'),
            )
        },
    }
}

fn put_mark(out: &mut String, present: bool, c: char)
    ensures
        final(out)@ == old(out)@ + mark(present, c),
{
    if present {
        put(out, c);
    } else {
        assert(out@ =~= old(out)@ + mark(present, c));
    }
}

impl Move {
    /// Whether both squares lie on the board.
    pub open spec fn wf(self) -> bool {
        self.from.wf() && self.to.wf()
    }

    /// The move in coordinate notation, such as `e2e4`.
    pub open spec fn arabic_text(self) -> Seq<char> {
        self.from.text() + self.to.text()
    }

    /// Parses a move in coordinate notation: exactly four characters, two
    /// squares. Anything else is a parsing error.
    pub fn arabic(s: &str) -> (r: Result<Move, Error>)
        ensures
            r == match parse_arabic(s@) {
                Some(m) => Ok::<Move, Error>(m),
                None => Err(Error::ParsingError),
            },
            r is Ok ==> r->Ok_0.wf(),
            s@.len() != 4 ==> r is Err,
    {
        let chars = chars_of(s);
        if chars.len() != 4 {
            return Err(Error::ParsingError);
        }
        let from = match Position::parse_chars(&chars, 0, 2) {
            Ok(p) => p,
            Err(e) => {
                return Err(e);
            },
        };
        let to = match Position::parse_chars(&chars, 2, 4) {
            Ok(p) => p,
            Err(e) => {
                return Err(e);
            },
        };
        Ok(Move { from, to })
    }

    /// Finds the first place at which a text is not coordinate notation and
    /// says what was expected there.
    ///
    /// There is such a place exactly when parsing the text is an error.
    pub fn arabic_fault(s: &str) -> (r: Option<Fault>)
        ensures
            r == arabic_fault(s@),
            r is None <==> parse_arabic(s@) is Some,
    {
        let chars = chars_of(s);
        let n = chars.len();
        proof {
            reveal_with_fuel(arabic_fault_from, 6);
            if s@.len() == 4 {
                assert(s@.subrange(0, 2)[0] == s@[0]);
                assert(s@.subrange(0, 2)[1] == s@[1]);
                assert(s@.subrange(2, 4)[0] == s@[2]);
                assert(s@.subrange(2, 4)[1] == s@[3]);
            }
        }
        if !(0 < n && 'a' <= chars[0] && chars[0] <= 'h') {
            Some(Fault { at: 0, expected: Expected::File })
        } else if !(1 < n && '1' <= chars[1] && chars[1] <= '8') {
            Some(Fault { at: 1, expected: Expected::Rank })
        } else if !(2 < n && 'a' <= chars[2] && chars[2] <= 'h') {
            Some(Fault { at: 2, expected: Expected::File })
        } else if !(3 < n && '1' <= chars[3] && chars[3] <= '8') {
            Some(Fault { at: 3, expected: Expected::Rank })
        } else if n > 4 {
            Some(Fault { at: 4, expected: Expected::End })
        } else {
            None
        }
    }

    /// The move in coordinate notation, such as `h8a1`.
    pub fn as_arabic(&self) -> (s: String)
        requires
            self.wf(),
        ensures
            s@ == self.arabic_text(),
    {
        let mut s = String::new();
        self.from.write_to(&mut s);
        self.to.write_to(&mut s);
        assert(s@ =~= self.arabic_text());
        s
    }
}

impl Move {
    /// Writes the move in long algebraic notation, such as `Qh4xe1`.
    ///
    /// `board` is the board before the move is made. `promotion` is the kind
    /// that a promoted pawn turns into; its letter is written behind the
    /// destination whenever it is given. Returns nothing if the source square
    /// is empty.
    pub fn as_algebraic(&self, board: &Board, promotion: Option<Kind>) -> (r: Option<String>)
        requires
            self.wf(),
        ensures
            match algebraic_text(*self, *board, promotion) {
                Some(text) => r is Some && r->Some_0@ == text,
                None => r is None,
            },
    {
        let piece = match board.get(self.from) {
            Some(piece) => piece,
            None => {
                return None;
            },
        };
        if piece.kind == Kind::King && self.to.file == self.from.file + 2 {
            return Some(String::from_str("0-0"));
        } else if piece.kind == Kind::King && self.to.file + 2 == self.from.file {
            return Some(String::from_str("0-0-0"));
        }
        let mut out = String::new();
        if piece.kind != Kind::Pawn {
            put(&mut out, piece.kind.name());
        }
        assert(out@ =~= kind_text(piece.kind));
        self.from.write_to(&mut out);
        put_mark(&mut out, board.get(self.to).is_some(), 'x');
        self.to.write_to(&mut out);
        let ghost before = out@;
        match promotion {
            Some(kind) => put(&mut out, kind.name()),
            None => {
                assert(out@ =~= before + Seq::<char>::empty());
            },
        }
        put_mark(&mut out, piece.checks(self.to, board), '+');
        Some(out)
    }
}

impl From<(Position, Position)> for Move {
    fn from(pair: (Position, Position)) -> (m: Move) {
        Move { from: pair.0, to: pair.1 }
    }
}

impl vstd::std_specs::convert::FromSpecImpl<(Position, Position)> for Move {
    open spec fn obeys_from_spec() -> bool {
        true
    }

    open spec fn from_spec(pair: (Position, Position)) -> Move {
        Move { from: pair.0, to: pair.1 }
    }
}

/// Writing a move in coordinate notation and parsing it again gives the
/// move back.
pub proof fn lemma_arabic_round_trip(m: Move)
    requires
        m.wf(),
    ensures
        parse_arabic(m.arabic_text()) == Some(m),
{
    let s = m.arabic_text();
    assert(s.subrange(0, 2) =~= m.from.text());
    assert(s.subrange(2, 4) =~= m.to.text());
    lemma_square_round_trip(m.from);
    lemma_square_round_trip(m.to);
}

/// Coordinate notation is rejected unless it is four characters long with
/// file letters `a`-`h` and rank digits `1`-`8` in turn.
pub proof fn lemma_arabic_rejects(s: Seq<char>)
    ensures
        parse_arabic(s) is Some <==> (s.len() == 4 && is_file_char(s[0]) && is_rank_char(s[1])
            && is_file_char(s[2]) && is_rank_char(s[3])),
{
}

} // verus!
