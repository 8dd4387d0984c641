//! The line protocol of play over a network: what a client may ask of the
//! host of a game, and what the host answers.
//!
//! The host plays White and the client Black. A request is `move:` followed
//! by a move in coordinate notation and a promotion letter, or `init:`
//! followed by anything; the answers are `board:<fen>;`, `end:<winner><fen>;`
//! and `err:<message>;`.

use vstd::prelude::*;
use vstd::string::*;
use crate::board::fen::{fen_text, parse_fen};
use crate::board::Board;
use crate::error::Error;
use crate::game::{after_move, refusal, state_of, Game, GameState};
use crate::invariants::sound;
use crate::piece::Kind;
use crate::text::{chars_of, push_char, put};
use crate::util::{parse_arabic, Color, Move, Position};

verus! {

/// What a client asks of the host.
#[derive(Debug, PartialEq, Eq, Clone, Copy, Structural)]
pub enum Request {
    /// Make this move, and turn a pawn that reaches the last rank into a
    /// piece of this kind.
    Move { move_: Move, promotion: Kind },
    /// Send the board.
    Init,
    /// Anything else that has the shape of a request.
    Other,
}

/// What the host answers.
#[derive(Debug, PartialEq, Eq, Clone, Copy, Structural)]
pub enum Reply {
    /// The move was made and the game goes on.
    Board,
    /// The move was made and has ended the game; a draw has no winner.
    End { winner: Option<Color> },
    /// The move was refused by the rules.
    Refused { error: Error },
    /// The move would have moved a piece of the host.
    NotYours,
    /// The request was none that the host knows.
    Invalid,
}

/// The letter of a side in an answer.
pub open spec fn side_char(color: Color) -> char {
    match color {
        Color::White => 'w',
        Color::Black => 'b',
    }
}

/// The letter of a side in an answer.
pub fn match_color_to_char(color: Color) -> (c: char)
    ensures
        c == side_char(color),
{
    match color {
        Color::White => 'w',
        Color::Black => 'b',
    }
}

/// The kind that a promotion letter of a request names: `q`, `r`, `b` or
/// `n`, or `-` for a move without a choice, which stands for a queen.
pub open spec fn promotion_of(c: char) -> Option<Kind> {
    if c == 'q' || c == '-' {
        Some(Kind::Queen)
    } else if c == 'r' {
        Some(Kind::Rook)
    } else if c == 'b' {
        Some(Kind::Bishop)
    } else if c == 'n' {
        Some(Kind::Knight)
    } else {
        None
    }
}

/// The index of the first colon at or after `i`, or the length.
pub open spec fn colon_from(s: Seq<char>, i: int) -> int
    decreases s.len() - i,
{
    if 0 <= i < s.len() && s[i] != ':' {
        colon_from(s, i + 1)
    } else {
        i
    }
}

/// The request that a line denotes, if it is well formed: exactly one
/// colon, with `move` or `init` or anything else before it, and behind
/// `move:` four characters of coordinate notation and a promotion letter.
pub open spec fn parse_request(s: Seq<char>) -> Option<Request> {
    let at = colon_from(s, 0);
    let head = s.subrange(0, at);
    if at >= s.len() || colon_from(s, at + 1) < s.len() {
        None
    } else if head == "move"@ {
        let data = s.subrange(at + 1, s.len() as int);
        if data.len() < 5 {
            None
        } else {
            match (parse_arabic(data.subrange(0, 4)), promotion_of(data[4])) {
                (Some(move_), Some(promotion)) => Some(Request::Move { move_, promotion }),
                _ => None,
            }
        }
    } else if head == "init"@ {
        Some(Request::Init)
    } else {
        Some(Request::Other)
    }
}

fn find_colon(chars: &Vec<char>, start: usize) -> (i: usize)
    requires
        start <= chars.len(),
    ensures
        i == colon_from(chars@, start as int),
        start <= i <= chars.len(),
{
    let mut i = start;
    while i < chars.len() && chars[i] != ':'
        invariant
            start <= i <= chars.len(),
            colon_from(chars@, start as int) == colon_from(chars@, i as int),
        decreases chars.len() - i,
    {
        i += 1;
    }
    i
}

/// Whether the first `end` characters are the characters of `word`.
fn starts(chars: &Vec<char>, end: usize, word: &str) -> (r: bool)
    requires
        end <= chars.len(),
    ensures
        r == (chars@.subrange(0, end as int) == word@),
{
    let ghost head = chars@.subrange(0, end as int);
    let letters = chars_of(word);
    if letters.len() != end {
        return false;
    }
    let mut i: usize = 0;
    while i < end
        invariant
            i <= end <= chars.len(),
            letters.len() == end,
            letters@ == word@,
            head == chars@.subrange(0, end as int),
            forall|j: int| 0 <= j < i ==> head[j] == letters@[j],
        decreases end - i,
    {
        if chars[i] != letters[i] {
            assert(head[i as int] != letters@[i as int]);
            return false;
        }
        i += 1;
    }
    assert(head =~= letters@);
    true
}

/// Reads a request from a line that has been stripped of its line end.
///
/// Nothing is returned for a line that is no request at all: one without a
/// colon or with several, or a `move:` without a well-formed move and
/// promotion letter behind it.
pub fn read_request(line: &str) -> (r: Option<Request>)
    ensures
        r == parse_request(line@),
        r matches Some(Request::Move { move_, promotion }) ==> move_.wf() && promotion
            != Kind::King,
{
    let chars = chars_of(line);
    let n = chars.len();
    let at = find_colon(&chars, 0);
    if at >= n || find_colon(&chars, at + 1) < n {
        return None;
    }
    if starts(&chars, at, "move") {
        let ghost data = chars@.subrange(at + 1, n as int);
        if n - (at + 1) < 5 {
            return None;
        }
        assert(data.subrange(0, 4) =~= chars@.subrange(at + 1, at + 5));
        assert(data[4] == chars@[at + 5]);
        let from = Position::parse_chars(&chars, at + 1, at + 3);
        let to = Position::parse_chars(&chars, at + 3, at + 5);
        assert(data.subrange(0, 4).subrange(0, 2) =~= chars@.subrange(at + 1, at + 3));
        assert(data.subrange(0, 4).subrange(2, 4) =~= chars@.subrange(at + 3, at + 5));
        let c = chars[at + 5];
        let promotion = if c == 'q' || c == '-' {
            Some(Kind::Queen)
        } else if c == 'r' {
            Some(Kind::Rook)
        } else if c == 'b' {
            Some(Kind::Bishop)
        } else if c == 'n' {
            Some(Kind::Knight)
        } else {
            None
        };
        match (from, to, promotion) {
            (Ok(from), Ok(to), Some(promotion)) => Some(
                Request::Move { move_: Move { from, to }, promotion },
            ),
            _ => None,
        }
    } else if starts(&chars, at, "init") {
        Some(Request::Init)
    } else {
        Some(Request::Other)
    }
}

/// The answer that a request gets on a board, which the request may
/// change: the outcome of a move of a Black piece, refused or made, the
/// board for `init`, and a complaint about anything else.
pub open spec fn reply_to(board: Board, request: Request) -> Reply {
    match request {
        Request::Move { move_, promotion } => {
            let host_piece = match board.at(move_.from) {
                Some(piece) => piece.color == Color::White,
                None => false,
            };
            if host_piece {
                Reply::NotYours
            } else {
                match refusal(board, move_) {
                    Some(error) => Reply::Refused { error },
                    None => match state_of(after_move(board, move_, promotion)) {
                        GameState::Ongoing => Reply::Board,
                        GameState::Draw => Reply::End { winner: None },
                        GameState::Checkmate { winner } => Reply::End { winner: Some(winner) },
                    },
                }
            }
        },
        Request::Init => Reply::Board,
        Request::Other => Reply::Invalid,
    }
}

/// Carries out a request against the game and says what to answer.
///
/// Only a move that the rules accept changes the game, and a game in a
/// sound position stays in a sound position.
pub fn answer(game: &mut Game, request: Request) -> (reply: Reply)
    requires
        old(game)@.wf(),
        old(game)@.move_number < u16::MAX,
        old(game)@.halfmove_counter < u16::MAX,
        request matches Request::Move { move_, promotion } ==> move_.wf(),
    ensures
        reply == reply_to(old(game)@, request),
        final(game)@.wf(),
        final(game)@ == (match request {
            Request::Move { move_, promotion } => if reply_to(old(game)@, request) is Board
                || reply_to(old(game)@, request) is End {
                after_move(old(game)@, move_, promotion)
            } else {
                old(game)@
            },
            _ => old(game)@,
        }),
        sound(old(game)@) && (request matches Request::Move { move_, promotion } ==> promotion
            != Kind::King) ==> sound(final(game)@),
{
    match request {
        Request::Move { move_, promotion } => {
            if let Some(piece) = game.board().get(move_.from) {
                if piece.color == Color::White {
                    return Reply::NotYours;
                }
            }
            match game.make_move_with(move_, promotion) {
                Ok(GameState::Ongoing) => Reply::Board,
                Ok(GameState::Draw) => Reply::End { winner: None },
                Ok(GameState::Checkmate { winner }) => Reply::End { winner: Some(winner) },
                Err(error) => Reply::Refused { error },
            }
        },
        Request::Init => Reply::Board,
        Request::Other => Reply::Invalid,
    }
}

/// The text of an answer, with `board` the board after the request.
pub open spec fn reply_chars(reply: Reply, board: Board) -> Seq<char> {
    match reply {
        Reply::Board => "board:"@ + fen_text(board) + seq![';'],
        Reply::End { winner } => "end:"@ + seq![
            match winner {
                Some(color) => side_char(color),
                None => '-',
            },
        ] + fen_text(board) + seq![';'],
        Reply::Refused { error } => "err:"@ + error.message() + seq![';'],
        Reply::NotYours => "err: Can't move enemy pieces"@,
        Reply::Invalid => "err: Invalid payload type;"@,
    }
}

/// Writes an answer as the line to send, with `board` the board after the
/// request.
pub fn reply_text(reply: Reply, board: &Board) -> (text: String)
    requires
        board.wf(),
    ensures
        text@ == reply_chars(reply, *board),
{
    match reply {
        Reply::Board => {
            let mut out = String::from_str("board:");
            let fen = board.to_fen();
            out.append(fen.as_str());
            put(&mut out, ';');
            out
        },
        Reply::End { winner } => {
            let mut out = String::from_str("end:");
            put(
                &mut out,
                match winner {
                    Some(color) => match_color_to_char(color),
                    None => '-',
                },
            );
            let fen = board.to_fen();
            out.append(fen.as_str());
            put(&mut out, ';');
            out
        },
        Reply::Refused { error } => {
            let mut out = String::from_str("err:");
            let message = error.to_string();
            out.append(message.as_str());
            put(&mut out, ';');
            out
        },
        Reply::NotYours => String::from_str("err: Can't move enemy pieces"),
        Reply::Invalid => String::from_str("err: Invalid payload type;"),
    }
}

/// What the host has sent to a client.
#[derive(Debug, PartialEq, Eq, Clone, Copy)]
pub enum Incoming {
    /// The board as it stands now.
    Board { board: Board },
    /// A board that cannot be read.
    BadBoard { error: Error },
    /// The game is over.
    End,
    /// The host has refused a request.
    Refusal,
    /// Anything else that has the shape of an answer.
    Other,
}

/// A text without its semicolons.
pub open spec fn unmarked(s: Seq<char>) -> Seq<char>
    decreases s.len(),
{
    if s.len() == 0 {
        seq![]
    } else if s.last() == ';' {
        unmarked(s.drop_last())
    } else {
        unmarked(s.drop_last()).push(s.last())
    }
}

/// What a line of the host denotes, if it is well formed: exactly one
/// colon, with `board`, `end`, `err` or anything else before it, and behind
/// `board:` a FEN record, in which semicolons do not count.
pub open spec fn parse_answer(s: Seq<char>) -> Option<Incoming> {
    let at = colon_from(s, 0);
    let head = s.subrange(0, at);
    if at >= s.len() || colon_from(s, at + 1) < s.len() {
        None
    } else if head == "board"@ {
        match parse_fen(unmarked(s.subrange(at + 1, s.len() as int))) {
            Ok(board) => Some(Incoming::Board { board }),
            Err(error) => Some(Incoming::BadBoard { error }),
        }
    } else if head == "end"@ {
        Some(Incoming::End)
    } else if head == "err"@ {
        Some(Incoming::Refusal)
    } else {
        Some(Incoming::Other)
    }
}

/// Reads an answer of the host from a line that has been stripped of its
/// line end. Nothing is returned for a line without a colon or with
/// several.
pub fn read_answer(line: &str) -> (r: Option<Incoming>)
    ensures
        r == parse_answer(line@),
{
    let chars = chars_of(line);
    let n = chars.len();
    let at = find_colon(&chars, 0);
    if at >= n || find_colon(&chars, at + 1) < n {
        return None;
    }
    if starts(&chars, at, "board") {
        let ghost data = chars@.subrange(at + 1, n as int);
        let mut record = String::new();
        let mut i: usize = at + 1;
        assert(data.take(0) =~= Seq::<char>::empty());
        while i < n
            invariant
                at + 1 <= i <= n,
                n == chars.len(),
                data == chars@.subrange(at + 1, n as int),
                record@ == unmarked(data.take(i - (at + 1))),
            decreases n - i,
        {
            let ghost next = data.take(i - (at + 1) + 1);
            assert(next.drop_last() =~= data.take(i - (at + 1)));
            assert(next.last() == chars@[i as int]);
            if chars[i] != ';' {
                push_char(&mut record, chars[i]);
            }
            i += 1;
        }
        assert(data.take(n - (at + 1)) =~= data);
        match Board::from_fen(record.as_str()) {
            Ok(board) => Some(Incoming::Board { board }),
            Err(error) => Some(Incoming::BadBoard { error }),
        }
    } else if starts(&chars, at, "end") {
        Some(Incoming::End)
    } else if starts(&chars, at, "err") {
        Some(Incoming::Refusal)
    } else {
        Some(Incoming::Other)
    }
}

} // verus!
