//! Forsyth-Edwards notation: six blank-separated fields that record a
//! position.

use vstd::prelude::*;
use vstd::array::spec_array_fill_for_copy_type;
use crate::board::Board;
use crate::error::Error;
use crate::piece::{piece_of_letter, Piece};
use crate::text::{chars_of, push_char, put};
use crate::util::{parse_square, Color, Position};

verus! {

/// The characters that separate fields: the ASCII white space.
pub open spec fn is_blank(c: char) -> bool {
    c == ' ' || c == '\t' || c == '\n' || c == '\r' || c == '\x0C'
}

/// The first index at or after `i` that holds no blank.
pub open spec fn skip_blanks(s: Seq<char>, i: int) -> int
    decreases s.len() - i,
{
    if 0 <= i < s.len() && is_blank(s[i]) {
        skip_blanks(s, i + 1)
    } else {
        i
    }
}

/// The first index at or after `i` that holds a blank, or the length.
pub open spec fn token_end(s: Seq<char>, i: int) -> int
    decreases s.len() - i,
{
    if 0 <= i < s.len() && !is_blank(s[i]) {
        token_end(s, i + 1)
    } else {
        i
    }
}

/// The grid without any piece.
pub open spec fn blank_tiles() -> [[Option<Piece>; 8]; 8] {
    spec_array_fill_for_copy_type::<[Option<Piece>; 8], 8>(
        spec_array_fill_for_copy_type::<Option<Piece>, 8>(None),
    )
}

/// The board without any piece, with nothing recorded.
pub open spec fn blank_board() -> Board {
    Board {
        tiles: blank_tiles(),
        next_to_move: Color::White,
        can_castle_white_kingside: false,
        can_castle_white_queenside: false,
        can_castle_black_kingside: false,
        can_castle_black_queenside: false,
        en_passant_square: None,
        halfmove_counter: 0,
        move_number: 0,
        checking_pieces: 0,
    }
}

/// Where the reading of a piece placement stands: the squares filled so
/// far, and the square to fill next.
pub struct Scan {
    pub board: Board,
    pub rank: int,
    pub file: int,
}

/// Reads one character of a piece placement. A slash starts the next rank,
/// a digit `1`-`8` skips that many files, a piece letter fills a square.
/// Anything else, a ninth rank, or a ninth file in a rank is malformed.
pub open spec fn scan_step(st: Scan, c: char) -> Option<Scan> {
    if c == '/' {
        if st.rank < 7 {
            Some(Scan { board: st.board, rank: st.rank + 1, file: 0 })
        } else {
            None
        }
    } else if '1' <= c <= '8' {
        if st.file + (c as u32 - 48) <= 8 {
            Some(Scan { board: st.board, rank: st.rank, file: st.file + (c as u32 - 48) })
        } else {
            None
        }
    } else {
        match piece_of_letter(c) {
            Some(piece) => if st.file < 8 {
                Some(
                    Scan {
                        board: st.board.with_piece(
                            Position { file: st.file as u8, rank: st.rank as u8 },
                            Some(piece),
                        ),
                        rank: st.rank,
                        file: st.file + 1,
                    },
                )
            } else {
                None
            },
            None => None,
        }
    }
}

/// Reads a piece placement from the left, starting from `init`.
pub open spec fn scan(s: Seq<char>, init: Scan) -> Option<Scan>
    decreases s.len(),
{
    if s.len() == 0 {
        Some(init)
    } else {
        match scan(s.drop_last(), init) {
            Some(st) => scan_step(st, s.last()),
            None => None,
        }
    }
}

/// The castling rights that a field grants: `-` for none, else letters of
/// `KQkq` in any order.
pub open spec fn rights_granted(s: Seq<char>, letter: char) -> bool {
    s.contains(letter)
}

/// Whether a field consists of the single character `c`.
pub open spec fn is_just(s: Seq<char>, c: char) -> bool {
    s.len() == 1 && s[0] == c
}

/// Whether a castling field is well formed: `-` alone, or letters of `KQkq`
/// only.
pub open spec fn valid_rights(s: Seq<char>) -> bool {
    is_just(s, '-') || forall|i: int|
        0 <= i < s.len() ==> (#[trigger] s[i] == 'K' || s[i] == 'Q' || s[i] == 'k' || s[i] == 'q')
}

/// The value of a run of decimal digits, read from the left.
pub open spec fn digits_value(s: Seq<char>) -> nat
    decreases s.len(),
{
    if s.len() == 0 {
        0
    } else {
        digits_value(s.drop_last()) * 10 + (s.last() as u32 - 48) as nat
    }
}

/// Whether every character is a decimal digit.
pub open spec fn all_digits(s: Seq<char>) -> bool {
    forall|i: int| 0 <= i < s.len() ==> '0' <= #[trigger] s[i] <= '9'
}

/// The number that a field denotes: decimal digits, with an optional plus
/// sign in front, of a value that fits in sixteen bits.
pub open spec fn parse_number(s: Seq<char>) -> Option<u16> {
    let digits = if s.len() > 0 && s[0] == '+' {
        s.drop_first()
    } else {
        s
    };
    if digits.len() > 0 && all_digits(digits) && digits_value(digits) <= u16::MAX {
        Some(digits_value(digits) as u16)
    } else {
        None
    }
}

/// The side that a field names.
pub open spec fn parse_turn(s: Seq<char>) -> Option<Color> {
    if is_just(s, 'w') {
        Some(Color::White)
    } else if is_just(s, 'b') {
        Some(Color::Black)
    } else {
        None
    }
}

/// The en passant target that a field names: `-` for none, else a square.
pub open spec fn parse_target(s: Seq<char>) -> Option<Option<Position>> {
    if is_just(s, '-') {
        Some(None)
    } else {
        match parse_square(s) {
            Some(p) => Some(Some(p)),
            None => None,
        }
    }
}

/// The six fields of a record, as index ranges into it. A field that is
/// missing has an empty range at the end.
pub open spec fn field_start(s: Seq<char>, k: nat) -> int
    decreases k,
{
    if k == 0 {
        skip_blanks(s, 0)
    } else {
        skip_blanks(s, token_end(s, field_start(s, (k - 1) as nat)))
    }
}

/// The text of field `k` of a record; empty if the field is missing.
pub open spec fn field(s: Seq<char>, k: nat) -> Seq<char> {
    s.subrange(field_start(s, k), token_end(s, field_start(s, k)))
}

/// The piece placement that a field denotes.
pub open spec fn parse_placement(s: Seq<char>) -> Option<[[Option<Piece>; 8]; 8]> {
    match scan(s, Scan { board: blank_board(), rank: 0, file: 0 }) {
        Some(st) => Some(st.board.tiles),
        None => None,
    }
}

/// The board that a record denotes.
///
/// The record holds at least six fields, in turn the piece placement, the
/// side to move, the castling rights, the en passant target, the halfmove
/// clock and the move number. A missing or malformed field is a parsing
/// error; a placement that lacks a king of either color is an invalid game
/// state. No check is recorded on the board.
pub open spec fn parse_fen(s: Seq<char>) -> Result<Board, Error> {
    if field_start(s, 5) >= s.len() {
        Err(Error::ParsingError)
    } else {
        match (
            parse_placement(field(s, 0)),
            parse_turn(field(s, 1)),
            parse_target(field(s, 3)),
            parse_number(field(s, 4)),
            parse_number(field(s, 5)),
        ) {
            (Some(tiles), Some(turn), Some(target), Some(halfmoves), Some(number)) => {
                let board = Board {
                    tiles,
                    next_to_move: turn,
                    can_castle_white_kingside: rights_granted(field(s, 2), 'K'),
                    can_castle_white_queenside: rights_granted(field(s, 2), 'Q'),
                    can_castle_black_kingside: rights_granted(field(s, 2), 'k'),
                    can_castle_black_queenside: rights_granted(field(s, 2), 'q'),
                    en_passant_square: target,
                    halfmove_counter: halfmoves,
                    move_number: number,
                    checking_pieces: 0,
                };
                if !valid_rights(field(s, 2)) {
                    Err(Error::ParsingError)
                } else if board.king_square(Color::White) is None || board.king_square(
                    Color::Black,
                ) is None {
                    Err(Error::InvalidGameState)
                } else {
                    Ok(board)
                }
            },
            _ => Err(Error::ParsingError),
        }
    }
}

/// The decimal digit of a number below ten.
pub open spec fn digit(n: int) -> char {
    (n + 48) as char
}

/// A run of empty squares in a placement: its length as a digit, or
/// nothing for no square.
pub open spec fn run_text(run: int) -> Seq<char> {
    if run > 0 {
        seq![digit(run)]
    } else {
        seq![]
    }
}

/// The placement of one rank from `file` on, with `run` empty squares
/// pending before it.
pub open spec fn row_text(board: Board, rank: u8, file: int, run: int) -> Seq<char>
    decreases 8 - file,
{
    if file < 0 || file >= 8 {
        run_text(run)
    } else {
        match board.at(Position { file: file as u8, rank }) {
            None => row_text(board, rank, file + 1, run + 1),
            Some(p) => run_text(run) + seq![p.letter()] + row_text(board, rank, file + 1, 0),
        }
    }
}

/// The placement of the first `n` ranks, the eighth rank first, with a
/// slash between two ranks.
pub open spec fn rows_text(board: Board, n: int) -> Seq<char>
    decreases n,
{
    if n <= 0 {
        seq![]
    } else if n == 1 {
        row_text(board, 0, 0, 0)
    } else {
        rows_text(board, n - 1) + seq!['/'] + row_text(board, (n - 1) as u8, 0, 0)
    }
}

/// The letter of a castling right that is held, or nothing.
pub open spec fn right_text(held: bool, letter: char) -> Seq<char> {
    if held {
        seq![letter]
    } else {
        seq![]
    }
}

/// The castling rights as letters in the order `KQkq`.
pub open spec fn rights_letters(board: Board) -> Seq<char> {
    right_text(board.can_castle_white_kingside, 'K') + right_text(
        board.can_castle_white_queenside,
        'Q',
    ) + right_text(board.can_castle_black_kingside, 'k') + right_text(
        board.can_castle_black_queenside,
        'q',
    )
}

/// The castling field: the letters of the rights held, or `-` for none.
pub open spec fn rights_text(board: Board) -> Seq<char> {
    if rights_letters(board).len() == 0 {
        seq!['-']
    } else {
        rights_letters(board)
    }
}

/// The en passant field: the target square, or `-` for none.
pub open spec fn target_text(board: Board) -> Seq<char> {
    match board.en_passant_square {
        Some(p) => p.text(),
        None => seq!['-'],
    }
}

/// The side to move as a letter.
pub open spec fn turn_char(color: Color) -> char {
    match color {
        Color::White => 'w',
        Color::Black => 'b',
    }
}

/// A number in decimal digits, without leading zeros.
pub open spec fn decimal(n: nat) -> Seq<char>
    decreases n,
{
    if n < 10 {
        seq![digit(n as int)]
    } else {
        decimal(n / 10) + seq![digit((n % 10) as int)]
    }
}

/// The FEN record of a board: placement, side to move, castling rights, en
/// passant target, halfmove clock and move number, one space between two
/// fields.
pub open spec fn fen_text(board: Board) -> Seq<char> {
    rows_text(board, 8) + seq![' '] + seq![turn_char(board.next_to_move)] + seq![' ']
        + rights_text(board) + seq![' '] + target_text(board) + seq![' '] + decimal(
        board.halfmove_counter as nat,
    ) + seq![' '] + decimal(board.move_number as nat)
}

/// The six fields of a record, in their order.
#[derive(Debug, PartialEq, Eq, Clone, Copy, Structural)]
pub enum Field {
    Placement,
    SideToMove,
    Castling,
    EnPassant,
    Halfmoves,
    MoveNumber,
}

impl Field {
    /// The place of the field in a record, counted from zero.
    pub open spec fn number(self) -> nat {
        match self {
            Field::Placement => 0,
            Field::SideToMove => 1,
            Field::Castling => 2,
            Field::EnPassant => 3,
            Field::Halfmoves => 4,
            Field::MoveNumber => 5,
        }
    }
}

/// Whether a field of a record is there and well formed.
pub open spec fn field_ok(s: Seq<char>, f: Field) -> bool {
    let text = field(s, f.number());
    &&& field_start(s, f.number()) < s.len()
    &&& match f {
        Field::Placement => parse_placement(text) is Some,
        Field::SideToMove => parse_turn(text) is Some,
        Field::Castling => valid_rights(text),
        Field::EnPassant => parse_target(text) is Some,
        Field::Halfmoves => parse_number(text) is Some,
        Field::MoveNumber => parse_number(text) is Some,
    }
}

/// The first field of a record that is missing or malformed, if there is
/// one.
pub open spec fn first_fault(s: Seq<char>) -> Option<Field> {
    if !field_ok(s, Field::Placement) {
        Some(Field::Placement)
    } else if !field_ok(s, Field::SideToMove) {
        Some(Field::SideToMove)
    } else if !field_ok(s, Field::Castling) {
        Some(Field::Castling)
    } else if !field_ok(s, Field::EnPassant) {
        Some(Field::EnPassant)
    } else if !field_ok(s, Field::Halfmoves) {
        Some(Field::Halfmoves)
    } else if !field_ok(s, Field::MoveNumber) {
        Some(Field::MoveNumber)
    } else {
        None
    }
}

/// The exec form of [`blank_board`].
pub(crate) fn new_blank() -> (b: Board)
    ensures
        b == blank_board(),
{
    Board {
        tiles: [[None; 8]; 8],
        next_to_move: Color::White,
        can_castle_white_kingside: false,
        can_castle_white_queenside: false,
        can_castle_black_kingside: false,
        can_castle_black_queenside: false,
        en_passant_square: None,
        halfmove_counter: 0,
        move_number: 0,
        checking_pieces: 0,
    }
}

fn blank(c: char) -> (r: bool)
    ensures
        r == is_blank(c),
{
    c == ' ' || c == '\t' || c == '\n' || c == '\r' || c == '\x0C'
}

fn skip(chars: &Vec<char>, start: usize) -> (i: usize)
    requires
        start <= chars.len(),
    ensures
        i == skip_blanks(chars@, start as int),
        start <= i <= chars.len(),
{
    let mut i = start;
    while i < chars.len() && blank(chars[i])
        invariant
            start <= i <= chars.len(),
            skip_blanks(chars@, start as int) == skip_blanks(chars@, i as int),
        decreases chars.len() - i,
    {
        i += 1;
    }
    i
}

fn token(chars: &Vec<char>, start: usize) -> (i: usize)
    requires
        start <= chars.len(),
    ensures
        i == token_end(chars@, start as int),
        start <= i <= chars.len(),
{
    let mut i = start;
    while i < chars.len() && !blank(chars[i])
        invariant
            start <= i <= chars.len(),
            token_end(chars@, start as int) == token_end(chars@, i as int),
        decreases chars.len() - i,
    {
        i += 1;
    }
    i
}

fn read_placement(chars: &Vec<char>, start: usize, end: usize) -> (r: Option<Board>)
    requires
        start <= end <= chars.len(),
    ensures
        match parse_placement(chars@.subrange(start as int, end as int)) {
            Some(tiles) => r is Some && r->Some_0 == (Board { tiles, ..blank_board() }),
            None => r is None,
        },
{
    let ghost s = chars@.subrange(start as int, end as int);
    let ghost init = Scan { board: blank_board(), rank: 0, file: 0 };
    let mut board = new_blank();
    let mut rank: u8 = 0;
    let mut file: u8 = 0;
    let mut i = start;
    assert(s.take(0) =~= Seq::<char>::empty());
    while i < end
        invariant
            start <= i <= end <= chars.len(),
            s == chars@.subrange(start as int, end as int),
            init == (Scan { board: blank_board(), rank: 0, file: 0 }),
            rank < 8,
            file <= 8,
            board == (Board { tiles: board.tiles, ..blank_board() }),
            scan(s.take(i - start), init) == Some(
                Scan { board, rank: rank as int, file: file as int },
            ),
        decreases end - i,
    {
        let c = chars[i];
        let ghost before = s.take(i - start);
        let ghost next = s.take(i - start + 1);
        assert(next.drop_last() =~= before);
        assert(next.last() == c);
        if c == '/' {
            if rank < 7 {
                rank += 1;
                file = 0;
            } else {
                proof {
                    lemma_scan_stuck(s, i - start + 1, init);
                }
                return None;
            }
        } else if '1' <= c && c <= '8' {
            let d: u8 = (c as u32 - 48) as u8;
            if file + d <= 8 {
                file += d;
            } else {
                proof {
                    lemma_scan_stuck(s, i - start + 1, init);
                }
                return None;
            }
        } else {
            match Piece::from_name(c) {
                Ok(piece) => {
                    if file < 8 {
                        board.set(Position { file, rank }, Some(piece));
                        file += 1;
                    } else {
                        proof {
                            lemma_scan_stuck(s, i - start + 1, init);
                        }
                        return None;
                    }
                },
                Err(_) => {
                    proof {
                        lemma_scan_stuck(s, i - start + 1, init);
                    }
                    return None;
                },
            }
        }
        i += 1;
    }
    assert(s.take(end - start) =~= s);
    Some(board)
}

/// Once the reading of a prefix has failed, the reading of the whole fails.
pub proof fn lemma_scan_stuck(s: Seq<char>, n: int, init: Scan)
    requires
        0 <= n <= s.len(),
        scan(s.take(n), init) is None,
    ensures
        scan(s, init) is None,
    decreases s.len() - n,
{
    if n < s.len() {
        assert(s.take(n + 1).drop_last() =~= s.take(n));
        lemma_scan_stuck(s, n + 1, init);
    } else {
        assert(s.take(n) =~= s);
    }
}

fn read_turn(chars: &Vec<char>, start: usize, end: usize) -> (r: Option<Color>)
    requires
        start <= end <= chars.len(),
    ensures
        r == parse_turn(chars@.subrange(start as int, end as int)),
{
    let ghost s = chars@.subrange(start as int, end as int);
    if end - start != 1 {
        return None;
    }
    let c = chars[start];
    assert(s[0] == c);
    if c == 'w' {
        Some(Color::White)
    } else if c == 'b' {
        Some(Color::Black)
    } else {
        None
    }
}

/// The castling rights read from a field, in the order `K Q k q`.
fn read_rights(chars: &Vec<char>, start: usize, end: usize) -> (r: Option<(bool, bool, bool, bool)>)
    requires
        start <= end <= chars.len(),
    ensures
        valid_rights(chars@.subrange(start as int, end as int)) == r is Some,
        r matches Some(flags) ==> {
            let s = chars@.subrange(start as int, end as int);
            &&& flags.0 == rights_granted(s, 'K')
            &&& flags.1 == rights_granted(s, 'Q')
            &&& flags.2 == rights_granted(s, 'k')
            &&& flags.3 == rights_granted(s, 'q')
        },
{
    let ghost s = chars@.subrange(start as int, end as int);
    if end - start == 1 && chars[start] == '-' {
        assert(s[0] == '-');
        assert forall|c: char| c != '-' implies !s.contains(c) by {
            if s.contains(c) {
                let i = choose|i: int| 0 <= i < s.len() && s[i] == c;
                assert(s[i] == '-');
            }
        }
        return Some((false, false, false, false));
    }
    assert(!is_just(s, '-')) by {
        if s.len() == 1 {
            assert(s[0] == chars@[start as int]);
        }
    }
    let mut flags = (false, false, false, false);
    let mut i = start;
    while i < end
        invariant
            start <= i <= end <= chars.len(),
            s == chars@.subrange(start as int, end as int),
            !is_just(s, '-'),
            forall|j: int|
                0 <= j < i - start ==> (#[trigger] s[j] == 'K' || s[j] == 'Q' || s[j] == 'k'
                    || s[j] == 'q'),
            flags.0 == s.take(i - start).contains('K'),
            flags.1 == s.take(i - start).contains('Q'),
            flags.2 == s.take(i - start).contains('k'),
            flags.3 == s.take(i - start).contains('q'),
        decreases end - i,
    {
        let c = chars[i];
        let ghost before = s.take(i - start);
        let ghost next = s.take(i - start + 1);
        assert(next =~= before.push(c));
        assert(s[i - start] == c);
        assert forall|x: char| next.contains(x) == (before.contains(x) || x == c) by {
            if before.contains(x) {
                let j = choose|j: int| 0 <= j < before.len() && before[j] == x;
                assert(next[j] == x);
            }
            if x == c {
                assert(next[next.len() - 1] == x);
            }
        }
        if c == 'K' {
            flags.0 = true;
        } else if c == 'Q' {
            flags.1 = true;
        } else if c == 'k' {
            flags.2 = true;
        } else if c == 'q' {
            flags.3 = true;
        } else {
            assert(!(s[i - start] == 'K' || s[i - start] == 'Q' || s[i - start] == 'k'
                || s[i - start] == 'q'));
            return None;
        }
        i += 1;
    }
    assert(s.take(end - start) =~= s);
    Some(flags)
}

fn read_target(chars: &Vec<char>, start: usize, end: usize) -> (r: Option<Option<Position>>)
    requires
        start <= end <= chars.len(),
    ensures
        r == parse_target(chars@.subrange(start as int, end as int)),
{
    let ghost s = chars@.subrange(start as int, end as int);
    if end - start == 1 && chars[start] == '-' {
        assert(s[0] == '-');
        return Some(None);
    }
    assert(!is_just(s, '-')) by {
        if s.len() == 1 {
            assert(s[0] == chars@[start as int]);
        }
    }
    match Position::parse_chars(chars, start, end) {
        Ok(p) => Some(Some(p)),
        Err(_) => None,
    }
}

/// The value of a run of digits only grows as the run is extended.
pub proof fn lemma_digits_grow(s: Seq<char>, n: int)
    requires
        0 <= n <= s.len(),
        all_digits(s),
    ensures
        digits_value(s.take(n)) <= digits_value(s),
    decreases s.len() - n,
{
    if n < s.len() {
        assert(s.take(n + 1).drop_last() =~= s.take(n));
        assert(s.take(n + 1).last() == s[n]);
        lemma_digits_grow(s, n + 1);
    } else {
        assert(s.take(n) =~= s);
    }
}

fn read_number(chars: &Vec<char>, start: usize, end: usize) -> (r: Option<u16>)
    requires
        start <= end <= chars.len(),
    ensures
        r == parse_number(chars@.subrange(start as int, end as int)),
{
    let ghost s = chars@.subrange(start as int, end as int);
    let first = if start < end && chars[start] == '+' {
        assert(s[0] == '+');
        start + 1
    } else {
        start
    };
    let ghost digits = chars@.subrange(first as int, end as int);
    assert(digits =~= if s.len() > 0 && s[0] == '+' {
        s.drop_first()
    } else {
        s
    });
    if first == end {
        return None;
    }
    let mut value: u16 = 0;
    let mut i = first;
    assert(digits.take(0) =~= Seq::<char>::empty());
    while i < end
        invariant
            first <= i <= end <= chars.len(),
            digits == chars@.subrange(first as int, end as int),
            s == chars@.subrange(start as int, end as int),
            digits == (if s.len() > 0 && s[0] == '+' {
                s.drop_first()
            } else {
                s
            }),
            all_digits(digits.take(i - first)),
            value == digits_value(digits.take(i - first)),
        decreases end - i,
    {
        let c = chars[i];
        let ghost next = digits.take(i - first + 1);
        assert(next.drop_last() =~= digits.take(i - first));
        assert(next.last() == c);
        assert(digits[i - first] == c);
        if !('0' <= c && c <= '9') {
            assert(!all_digits(digits));
            return None;
        }
        assert(all_digits(next)) by {
            assert forall|j: int| 0 <= j < next.len() implies '0' <= #[trigger] next[j] <= '9' by {
                if j < next.len() - 1 {
                    assert(digits.take(i - first)[j] == next[j]);
                }
            }
        }
        let d: u16 = (c as u32 - 48) as u16;
        if value > 6553 || (value == 6553 && d > 5) {
            proof {
                if all_digits(digits) {
                    lemma_digits_grow(digits, i - first + 1);
                }
            }
            return None;
        }
        value = value * 10 + d;
        i += 1;
    }
    assert(digits.take(end - first) =~= digits);
    Some(value)
}

fn write_run(out: &mut String, run: u8)
    requires
        run <= 8,
    ensures
        final(out)@ == old(out)@ + run_text(run as int),
{
    if run > 0 {
        push_char(out, (run + 48) as char);
        assert(out@ =~= old(out)@ + run_text(run as int));
    } else {
        assert(out@ =~= old(out)@ + run_text(run as int));
    }
}

fn write_row(board: &Board, rank: u8, out: &mut String)
    requires
        rank < 8,
    ensures
        final(out)@ == old(out)@ + row_text(*board, rank, 0, 0),
{
    let ghost base = out@;
    let mut file: u8 = 0;
    let mut run: u8 = 0;
    while file < 8
        invariant
            file <= 8,
            run <= file,
            rank < 8,
            base + row_text(*board, rank, 0, 0) == out@ + row_text(
                *board,
                rank,
                file as int,
                run as int,
            ),
        decreases 8 - file,
    {
        let ghost before = out@;
        let ghost rest = row_text(*board, rank, file as int + 1, 0);
        match board.get(Position { file, rank }) {
            None => {
                run += 1;
            },
            Some(p) => {
                write_run(out, run);
                push_char(out, p.name());
                assert(out@ + rest =~= before + (run_text(run as int) + seq![p.letter()] + rest));
                run = 0;
            },
        }
        file += 1;
    }
    write_run(out, run);
}

fn write_right(out: &mut String, held: bool, letter: char)
    ensures
        final(out)@ == old(out)@ + right_text(held, letter),
{
    if held {
        push_char(out, letter);
    }
    assert(out@ =~= old(out)@ + right_text(held, letter));
}

fn write_number(out: &mut String, n: u16)
    ensures
        final(out)@ == old(out)@ + decimal(n as nat),
    decreases n,
{
    if n >= 10 {
        write_number(out, n / 10);
    }
    push_char(out, ((n % 10) as u8 + 48) as char);
    assert(out@ =~= old(out)@ + decimal(n as nat));
}

fn write_placement(board: &Board, out: &mut String)
    ensures
        final(out)@ == old(out)@ + rows_text(*board, 8),
{
    let ghost base = out@;
    let mut rank: u8 = 0;
    assert(out@ =~= base + rows_text(*board, 0));
    while rank < 8
        invariant
            rank <= 8,
            out@ == base + rows_text(*board, rank as int),
        decreases 8 - rank,
    {
        let ghost done = rows_text(*board, rank as int);
        if rank > 0 {
            put(out, '/');
        }
        write_row(board, rank, out);
        assert(out@ =~= base + rows_text(*board, rank as int + 1));
        rank += 1;
    }
}

fn write_rights(board: &Board, out: &mut String)
    ensures
        final(out)@ == old(out)@ + rights_text(*board),
{
    let ghost base = out@;
    write_right(out, board.can_castle_white_kingside, 'K');
    write_right(out, board.can_castle_white_queenside, 'Q');
    write_right(out, board.can_castle_black_kingside, 'k');
    write_right(out, board.can_castle_black_queenside, 'q');
    assert(out@ =~= base + rights_letters(*board));
    if !(board.can_castle_white_kingside || board.can_castle_white_queenside
        || board.can_castle_black_kingside || board.can_castle_black_queenside) {
        put(out, '-');
        assert(out@ =~= base + rights_text(*board));
    }
}

fn write_target(board: &Board, out: &mut String)
    requires
        board.wf(),
    ensures
        final(out)@ == old(out)@ + target_text(*board),
{
    match board.en_passant_square {
        Some(p) => p.write_to(out),
        None => put(out, '-'),
    }
}

impl Board {
    /// Writes the position as a FEN record.
    pub fn to_fen(&self) -> (fen: String)
        requires
            self.wf(),
        ensures
            fen@ == fen_text(*self),
    {
        let mut out = String::new();
        write_placement(self, &mut out);
        assert(out@ =~= rows_text(*self, 8));
        put(&mut out, ' ');
        put(
            &mut out,
            match self.next_to_move {
                Color::White => 'w',
                Color::Black => 'b',
            },
        );
        put(&mut out, ' ');
        write_rights(self, &mut out);
        put(&mut out, ' ');
        write_target(self, &mut out);
        put(&mut out, ' ');
        write_number(&mut out, self.halfmove_counter);
        put(&mut out, ' ');
        write_number(&mut out, self.move_number);
        out
    }

    /// Names the first field of a FEN record that is missing or malformed.
    ///
    /// There is such a field exactly when reading the record is a parsing
    /// error.
    pub fn fen_fault(fen: &str) -> (r: Option<Field>)
        ensures
            r == first_fault(fen@),
            r is Some <==> parse_fen(fen@) == Err::<Board, Error>(Error::ParsingError),
    {
        let chars = chars_of(fen);
        let a0 = skip(&chars, 0);
        let b0 = token(&chars, a0);
        let a1 = skip(&chars, b0);
        let b1 = token(&chars, a1);
        let a2 = skip(&chars, b1);
        let b2 = token(&chars, a2);
        let a3 = skip(&chars, b2);
        let b3 = token(&chars, a3);
        let a4 = skip(&chars, b3);
        let b4 = token(&chars, a4);
        let a5 = skip(&chars, b4);
        let b5 = token(&chars, a5);
        proof {
            reveal_with_fuel(field_start, 6);
            assert(a0 == field_start(fen@, 0));
            assert(a1 == field_start(fen@, 1));
            assert(a2 == field_start(fen@, 2));
            assert(a3 == field_start(fen@, 3));
            assert(a4 == field_start(fen@, 4));
            assert(a5 == field_start(fen@, 5));
        }
        let n = chars.len();
        if a0 >= n || read_placement(&chars, a0, b0).is_none() {
            Some(Field::Placement)
        } else if a1 >= n || read_turn(&chars, a1, b1).is_none() {
            Some(Field::SideToMove)
        } else if a2 >= n || read_rights(&chars, a2, b2).is_none() {
            Some(Field::Castling)
        } else if a3 >= n || read_target(&chars, a3, b3).is_none() {
            Some(Field::EnPassant)
        } else if a4 >= n || read_number(&chars, a4, b4).is_none() {
            Some(Field::Halfmoves)
        } else if a5 >= n || read_number(&chars, a5, b5).is_none() {
            Some(Field::MoveNumber)
        } else {
            None
        }
    }

    /// Reads a position from a FEN record.
    ///
    /// A record with a missing or malformed field is a parsing error; one
    /// whose placement lacks a king of either color is an invalid game state.
    pub fn from_fen(fen: &str) -> (r: Result<Board, Error>)
        ensures
            r == parse_fen(fen@),
            r matches Ok(board) ==> board.wf() && board.king_square(Color::White) is Some
                && board.king_square(Color::Black) is Some,
    {
        let chars = chars_of(fen);
        let a0 = skip(&chars, 0);
        let b0 = token(&chars, a0);
        let a1 = skip(&chars, b0);
        let b1 = token(&chars, a1);
        let a2 = skip(&chars, b1);
        let b2 = token(&chars, a2);
        let a3 = skip(&chars, b2);
        let b3 = token(&chars, a3);
        let a4 = skip(&chars, b3);
        let b4 = token(&chars, a4);
        let a5 = skip(&chars, b4);
        let b5 = token(&chars, a5);
        proof {
            reveal_with_fuel(field_start, 6);
            assert(a0 == field_start(fen@, 0));
            assert(a1 == field_start(fen@, 1));
            assert(a2 == field_start(fen@, 2));
            assert(a3 == field_start(fen@, 3));
            assert(a4 == field_start(fen@, 4));
            assert(a5 == field_start(fen@, 5));
        }
        if a5 >= chars.len() {
            return Err(Error::ParsingError);
        }
        let placed = read_placement(&chars, a0, b0);
        let turn = read_turn(&chars, a1, b1);
        let rights = read_rights(&chars, a2, b2);
        let target = read_target(&chars, a3, b3);
        let halfmoves = read_number(&chars, a4, b4);
        let number = read_number(&chars, a5, b5);
        match (placed, turn, rights, target, halfmoves, number) {
            (Some(placed), Some(turn), Some(rights), Some(target), Some(halfmoves), Some(number)) => {
                let board = Board {
                    tiles: placed.tiles,
                    next_to_move: turn,
                    can_castle_white_kingside: rights.0,
                    can_castle_white_queenside: rights.1,
                    can_castle_black_kingside: rights.2,
                    can_castle_black_queenside: rights.3,
                    en_passant_square: target,
                    halfmove_counter: halfmoves,
                    move_number: number,
                    checking_pieces: 0,
                };
                if board.find_king(Color::White).is_none() || board.find_king(
                    Color::Black,
                ).is_none() {
                    Err(Error::InvalidGameState)
                } else {
                    Ok(board)
                }
            },
            _ => Err(Error::ParsingError),
        }
    }
}

} // verus!
