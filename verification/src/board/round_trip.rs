//! Writing a board as a FEN record and reading the record gives the board
//! back.

use vstd::prelude::*;
use crate::board::fen::{
    all_digits,
    blank_board,
    decimal,
    digit,
    digits_value,
    fen_text,
    field,
    field_start,
    is_blank,
    parse_fen,
    parse_number,
    parse_placement,
    parse_target,
    parse_turn,
    right_text,
    rights_granted,
    rights_letters,
    rights_text,
    row_text,
    rows_text,
    run_text,
    scan,
    scan_step,
    skip_blanks,
    target_text,
    token_end,
    turn_char,
    valid_rights,
    Scan,
};
use crate::board::Board;
use crate::error::Error;
use crate::piece::{lemma_piece_letter_round_trip, Piece};
use crate::util::{lemma_square_round_trip, Color, Position};

verus! {

/// A word: at least one character, none of them a blank.
pub open spec fn is_word(w: Seq<char>) -> bool {
    w.len() > 0 && forall|i: int| 0 <= i < w.len() ==> !is_blank(#[trigger] w[i])
}

/// Behind a prefix, the end of a token lies where it lies without the
/// prefix.
pub proof fn lemma_token_end_shift(pre: Seq<char>, rest: Seq<char>, x: int)
    requires
        0 <= x <= rest.len(),
    ensures
        token_end(pre + rest, pre.len() + x) == pre.len() + token_end(rest, x),
    decreases rest.len() - x,
{
    let s = pre + rest;
    if x < rest.len() {
        assert(s[pre.len() + x] == rest[x]);
        if !is_blank(rest[x]) {
            lemma_token_end_shift(pre, rest, x + 1);
        }
    }
}

/// Behind a prefix, blanks are skipped as they are without the prefix.
pub proof fn lemma_skip_blanks_shift(pre: Seq<char>, rest: Seq<char>, x: int)
    requires
        0 <= x <= rest.len(),
    ensures
        skip_blanks(pre + rest, pre.len() + x) == pre.len() + skip_blanks(rest, x),
    decreases rest.len() - x,
{
    let s = pre + rest;
    if x < rest.len() {
        assert(s[pre.len() + x] == rest[x]);
        if is_blank(rest[x]) {
            lemma_skip_blanks_shift(pre, rest, x + 1);
        }
    }
}

/// A token that starts inside a word ends where the word ends, if a blank
/// or nothing follows the word.
pub proof fn lemma_token_end_of_word(w: Seq<char>, rest: Seq<char>, x: int)
    requires
        is_word(w),
        0 <= x <= w.len(),
        rest.len() == 0 || is_blank(rest[0]),
    ensures
        token_end(w + rest, x) == w.len(),
    decreases w.len() - x,
{
    let s = w + rest;
    if x < w.len() {
        assert(s[x] == w[x]);
        lemma_token_end_of_word(w, rest, x + 1);
    } else if rest.len() > 0 {
        assert(s[x] == rest[0]);
    }
}

/// Token ends and blank skips never leave the record.
pub proof fn lemma_cursor_bounds(s: Seq<char>, x: int)
    requires
        0 <= x <= s.len(),
    ensures
        x <= token_end(s, x) <= s.len(),
        x <= skip_blanks(s, x) <= s.len(),
    decreases s.len() - x,
{
    if x < s.len() {
        lemma_cursor_bounds(s, x + 1);
    }
}

/// Every field starts inside the record or at its end.
pub proof fn lemma_field_bounds(s: Seq<char>, k: nat)
    ensures
        0 <= field_start(s, k) <= s.len(),
    decreases k,
{
    if k == 0 {
        lemma_cursor_bounds(s, 0);
    } else {
        lemma_field_bounds(s, (k - 1) as nat);
        lemma_cursor_bounds(s, field_start(s, (k - 1) as nat));
        lemma_cursor_bounds(s, token_end(s, field_start(s, (k - 1) as nat)));
    }
}

/// The first field of a record that starts with a word is that word.
pub proof fn lemma_first_field(w: Seq<char>, rest: Seq<char>)
    requires
        is_word(w),
        rest.len() == 0 || is_blank(rest[0]),
    ensures
        field_start(w + rest, 0) == 0,
        token_end(w + rest, 0) == w.len(),
        field(w + rest, 0) == w,
{
    let s = w + rest;
    assert(s[0] == w[0]);
    lemma_token_end_of_word(w, rest, 0);
    assert(s.subrange(0, w.len() as int) =~= w);
}

/// Behind a word and one space, the fields of a record are the fields of
/// what follows, one place further on.
pub proof fn lemma_next_field(w: Seq<char>, rest: Seq<char>, k: nat)
    requires
        is_word(w),
        rest.len() > 0,
        !is_blank(rest[0]),
    ensures
        field_start(w + seq![' '] + rest, k + 1) == w.len() + 1 + field_start(rest, k),
        field(w + seq![' '] + rest, k + 1) == field(rest, k),
    decreases k,
{
    let pre = w + seq![' '];
    let s = pre + rest;
    let len = w.len() + 1;
    assert(pre.len() == len);
    lemma_field_bounds(rest, k);
    if k == 0 {
        assert(s =~= w + (seq![' '] + rest));
        lemma_first_field(w, seq![' '] + rest);
        assert(token_end(s, 0) == w.len());
        assert(s[w.len() as int] == ' ');
        assert(skip_blanks(s, w.len() as int) == skip_blanks(s, len as int));
        lemma_skip_blanks_shift(pre, rest, 0);
    } else {
        lemma_next_field(w, rest, (k - 1) as nat);
        let a = field_start(rest, (k - 1) as nat);
        lemma_field_bounds(rest, (k - 1) as nat);
        lemma_token_end_shift(pre, rest, a);
        lemma_cursor_bounds(rest, a);
        lemma_skip_blanks_shift(pre, rest, token_end(rest, a));
    }
    let a = field_start(rest, k);
    lemma_token_end_shift(pre, rest, a);
    lemma_cursor_bounds(rest, a);
    assert(s.subrange(len + a, len + token_end(rest, a)) =~= rest.subrange(a, token_end(rest, a)));
}

/// Reading two pieces of a placement one after the other is reading their
/// concatenation.
pub proof fn lemma_scan_concat(a: Seq<char>, b: Seq<char>, init: Scan)
    ensures
        scan(a + b, init) == match scan(a, init) {
            Some(st) => scan(b, st),
            None => None,
        },
    decreases b.len(),
{
    if b.len() == 0 {
        assert(a + b =~= a);
    } else {
        assert((a + b).drop_last() =~= a + b.drop_last());
        assert((a + b).last() == b.last());
        lemma_scan_concat(a, b.drop_last(), init);
    }
}

/// Reading a single character is one step.
pub proof fn lemma_scan_one(c: char, init: Scan)
    ensures
        scan(seq![c], init) == scan_step(init, c),
{
    let s = seq![c];
    assert(s.drop_last() =~= Seq::<char>::empty());
    assert(s.last() == c);
    reveal_with_fuel(scan, 3);
}

/// The grid `t` with the pieces that `b` holds on rank `rank` from `file`
/// on put in place.
pub open spec fn filled(t: Board, b: Board, rank: u8, file: int) -> Board
    decreases 8 - file,
{
    if file < 0 || file >= 8 {
        t
    } else {
        match b.at(Position { file: file as u8, rank }) {
            None => filled(t, b, rank, file + 1),
            Some(p) => filled(
                t.with_piece(Position { file: file as u8, rank }, Some(p)),
                b,
                rank,
                file + 1,
            ),
        }
    }
}

/// The blank board with the pieces of the first `n` ranks of `b` put in
/// place.
pub open spec fn rows_filled(b: Board, n: int) -> Board
    decreases n,
{
    if n <= 0 {
        blank_board()
    } else {
        filled(rows_filled(b, n - 1), b, (n - 1) as u8, 0)
    }
}

/// What a square holds after part of a rank has been put in place.
pub proof fn lemma_filled_at(t: Board, b: Board, rank: u8, file: int, q: Position)
    requires
        rank < 8,
        0 <= file <= 8,
        q.wf(),
    ensures
        filled(t, b, rank, file).at(q) == (if q.rank == rank && q.file >= file && b.at(q) is Some {
            b.at(q)
        } else {
            t.at(q)
        }),
    decreases 8 - file,
{
    if file < 8 {
        let here = Position { file: file as u8, rank };
        match b.at(here) {
            None => {
                lemma_filled_at(t, b, rank, file + 1, q);
            },
            Some(p) => {
                lemma_filled_at(t.with_piece(here, Some(p)), b, rank, file + 1, q);
            },
        }
    }
}

/// What a square holds after the first `n` ranks have been put in place.
pub proof fn lemma_rows_filled_at(b: Board, n: int, q: Position)
    requires
        0 <= n <= 8,
        q.wf(),
    ensures
        rows_filled(b, n).at(q) == (if q.rank < n {
            b.at(q)
        } else {
            None
        }),
    decreases n,
{
    if n > 0 {
        lemma_rows_filled_at(b, n - 1, q);
        lemma_filled_at(rows_filled(b, n - 1), b, (n - 1) as u8, 0, q);
    } else {
        assert(blank_board().at(q) is None);
    }
}

/// Reading the text of the rest of a rank puts the pieces of that rest in
/// place and ends behind the eighth file.
pub proof fn lemma_scan_row(b: Board, rank: u8, file: int, run: int, st: Scan)
    requires
        rank < 8,
        0 <= run <= file <= 8,
        st.rank == rank,
        st.file == file - run,
    ensures
        scan(row_text(b, rank, file, run), st) == Some(
            Scan { board: filled(st.board, b, rank, file), rank: rank as int, file: 8 },
        ),
    decreases 8 - file,
{
    let after_run = Scan { board: st.board, rank: st.rank, file: file };
    assert(scan(run_text(run), st) == Some(after_run)) by {
        if run > 0 {
            lemma_scan_one(digit(run), st);
        }
    }
    if file < 8 {
        let here = Position { file: file as u8, rank };
        match b.at(here) {
            None => {
                lemma_scan_row(b, rank, file + 1, run + 1, st);
            },
            Some(p) => {
                let placed = Scan {
                    board: st.board.with_piece(here, Some(p)),
                    rank: st.rank,
                    file: file + 1,
                };
                let rest = row_text(b, rank, file + 1, 0);
                lemma_piece_letter_round_trip(p);
                lemma_scan_one(p.letter(), after_run);
                assert(scan_step(after_run, p.letter()) == Some(placed));
                lemma_scan_concat(run_text(run), seq![p.letter()], st);
                lemma_scan_concat(run_text(run) + seq![p.letter()], rest, st);
                lemma_scan_row(b, rank, file + 1, 0, placed);
            },
        }
    }
}

/// Reading the text of the first `n` ranks puts their pieces in place.
pub proof fn lemma_scan_rows(b: Board, n: int)
    requires
        1 <= n <= 8,
    ensures
        scan(rows_text(b, n), Scan { board: blank_board(), rank: 0, file: 0 }) == Some(
            Scan { board: rows_filled(b, n), rank: n - 1, file: 8 },
        ),
    decreases n,
{
    let init = Scan { board: blank_board(), rank: 0, file: 0 };
    if n == 1 {
        lemma_scan_row(b, 0, 0, 0, init);
        assert(rows_filled(b, 1) == filled(rows_filled(b, 0), b, 0, 0));
    } else {
        lemma_scan_rows(b, n - 1);
        let done = Scan { board: rows_filled(b, n - 1), rank: n - 2, file: 8 };
        let next = Scan { board: rows_filled(b, n - 1), rank: n - 1, file: 0 };
        lemma_scan_one('/', done);
        lemma_scan_concat(rows_text(b, n - 1), seq!['/'], init);
        lemma_scan_concat(rows_text(b, n - 1) + seq!['/'], row_text(b, (n - 1) as u8, 0, 0), init);
        lemma_scan_row(b, (n - 1) as u8, 0, 0, next);
    }
}

/// The placement of a board reads back as the grid of the board.
pub proof fn lemma_placement_round_trip(b: Board)
    ensures
        parse_placement(rows_text(b, 8)) == Some(b.tiles),
{
    lemma_scan_rows(b, 8);
    let got = rows_filled(b, 8);
    assert forall|r: int, f: int| 0 <= r < 8 && 0 <= f < 8 implies got.tiles[r][f]
        == b.tiles[r][f] by {
        lemma_rows_filled_at(b, 8, Position { file: f as u8, rank: r as u8 });
    }
    assert forall|r: int| 0 <= r < 8 implies got.tiles[r] == b.tiles[r] by {
        assert(got.tiles[r] =~= b.tiles[r]);
    }
    assert(got.tiles =~= b.tiles);
}

/// The text of the rest of a rank holds no blank.
pub proof fn lemma_row_has_no_blank(b: Board, rank: u8, file: int, run: int)
    requires
        0 <= run <= file <= 8,
        rank < 8,
    ensures
        forall|i: int|
            0 <= i < row_text(b, rank, file, run).len() ==> !is_blank(
                #[trigger] row_text(b, rank, file, run)[i],
            ),
        file < 8 || run > 0 ==> row_text(b, rank, file, run).len() > 0,
    decreases 8 - file,
{
    if file < 8 {
        let here = Position { file: file as u8, rank };
        match b.at(here) {
            None => {
                lemma_row_has_no_blank(b, rank, file + 1, run + 1);
            },
            Some(p) => {
                lemma_row_has_no_blank(b, rank, file + 1, 0);
                lemma_piece_letter_round_trip(p);
                let head = run_text(run) + seq![p.letter()];
                let rest = row_text(b, rank, file + 1, 0);
                let s = row_text(b, rank, file, run);
                assert(s == head + rest);
                assert forall|i: int| 0 <= i < s.len() implies !is_blank(#[trigger] s[i]) by {
                    if i < head.len() {
                        assert(s[i] == head[i]);
                        if run > 0 && i == 0 {
                            assert(head[i] == digit(run));
                        } else {
                            assert(head[i] == p.letter());
                        }
                    } else {
                        assert(s[i] == rest[i - head.len()]);
                    }
                }
            },
        }
    }
}

/// The placement of a board is a word.
pub proof fn lemma_rows_are_a_word(b: Board, n: int)
    requires
        1 <= n <= 8,
    ensures
        is_word(rows_text(b, n)),
    decreases n,
{
    lemma_row_has_no_blank(b, (n - 1) as u8, 0, 0);
    if n > 1 {
        lemma_rows_are_a_word(b, n - 1);
    }
}

/// A number in decimal digits reads back as the number.
pub proof fn lemma_decimal_round_trip(n: nat)
    ensures
        decimal(n).len() > 0,
        all_digits(decimal(n)),
        digits_value(decimal(n)) == n,
    decreases n,
{
    if n >= 10 {
        lemma_decimal_round_trip(n / 10);
        let s = decimal(n);
        assert(s.drop_last() =~= decimal(n / 10));
        assert(s.last() == digit((n % 10) as int));
    } else {
        let s = decimal(n);
        assert(s.drop_last() =~= Seq::<char>::empty());
        reveal_with_fuel(digits_value, 2);
    }
}

/// A number below 65536 in decimal digits is a word that parses as itself.
pub proof fn lemma_number_round_trip(n: u16)
    ensures
        is_word(decimal(n as nat)),
        parse_number(decimal(n as nat)) == Some(n),
{
    lemma_decimal_round_trip(n as nat);
    let s = decimal(n as nat);
    assert(s[0] != '+');
    assert forall|i: int| 0 <= i < s.len() implies !is_blank(#[trigger] s[i]) by {
        assert('0' <= s[i] <= '9');
    }
}

/// The castling field is a word that grants exactly the rights held.
pub proof fn lemma_rights_round_trip(b: Board)
    ensures
        is_word(rights_text(b)),
        valid_rights(rights_text(b)),
        rights_granted(rights_text(b), 'K') == b.can_castle_white_kingside,
        rights_granted(rights_text(b), 'Q') == b.can_castle_white_queenside,
        rights_granted(rights_text(b), 'k') == b.can_castle_black_kingside,
        rights_granted(rights_text(b), 'q') == b.can_castle_black_queenside,
{
    let k1 = right_text(b.can_castle_white_kingside, 'K');
    let k2 = right_text(b.can_castle_white_queenside, 'Q');
    let k3 = right_text(b.can_castle_black_kingside, 'k');
    let k4 = right_text(b.can_castle_black_queenside, 'q');
    let s = rights_text(b);
    let l = rights_letters(b);
    assert(l == k1 + k2 + k3 + k4);
    assert forall|c: char| l.contains(c) == (k1.contains(c) || k2.contains(c) || k3.contains(c)
        || k4.contains(c)) by {
        lemma_contains_concat(k1, k2, c);
        lemma_contains_concat(k1 + k2, k3, c);
        lemma_contains_concat(k1 + k2 + k3, k4, c);
    }
    assert forall|held: bool, letter: char, c: char|
        right_text(held, letter).contains(c) == (held && c == letter) by {
        let t = right_text(held, letter);
        if held && c == letter {
            assert(t[0] == c);
        }
    }
    if l.len() == 0 {
        assert(s[0] == '-');
        assert forall|c: char| s.contains(c) implies c == '-' by {
            let i = choose|i: int| 0 <= i < s.len() && s[i] == c;
            assert(s[i] == '-');
        }
    } else {
        assert forall|i: int| 0 <= i < s.len() implies (#[trigger] s[i] == 'K' || s[i] == 'Q'
            || s[i] == 'k' || s[i] == 'q') by {
            assert(l.contains(s[i]));
        }
    }
}

/// A character occurs in a concatenation if it occurs in either part.
pub proof fn lemma_contains_concat(a: Seq<char>, b: Seq<char>, c: char)
    ensures
        (a + b).contains(c) == (a.contains(c) || b.contains(c)),
{
    let s = a + b;
    if a.contains(c) {
        let i = choose|i: int| 0 <= i < a.len() && a[i] == c;
        assert(s[i] == c);
    }
    if b.contains(c) {
        let i = choose|i: int| 0 <= i < b.len() && b[i] == c;
        assert(s[a.len() + i] == c);
    }
    if s.contains(c) {
        let i = choose|i: int| 0 <= i < s.len() && s[i] == c;
        if i < a.len() {
            assert(a[i] == c);
        } else {
            assert(b[i - a.len()] == c);
        }
    }
}

/// The en passant field is a word that names the target of the board.
pub proof fn lemma_target_round_trip(b: Board)
    requires
        b.wf(),
    ensures
        is_word(target_text(b)),
        parse_target(target_text(b)) == Some(b.en_passant_square),
{
    match b.en_passant_square {
        Some(p) => {
            lemma_square_round_trip(p);
        },
        None => {},
    }
}

/// A record: words with one space between two of them.
pub open spec fn record(words: Seq<Seq<char>>) -> Seq<char>
    decreases words.len(),
{
    if words.len() == 0 {
        seq![]
    } else if words.len() == 1 {
        words[0]
    } else {
        words[0] + seq![' '] + record(words.drop_first())
    }
}

/// The fields of a record of words are those words.
pub proof fn lemma_record_fields(words: Seq<Seq<char>>, k: nat)
    requires
        k < words.len(),
        forall|i: int| 0 <= i < words.len() ==> is_word(#[trigger] words[i]),
    ensures
        field(record(words), k) == words[k as int],
        field_start(record(words), k) < record(words).len(),
        record(words).len() > 0,
        !is_blank(record(words)[0]),
    decreases words.len(),
{
    let w = words[0];
    assert(is_word(w));
    assert(!is_blank(w[0]));
    if words.len() == 1 {
        assert(w + Seq::<char>::empty() =~= w);
        lemma_first_field(w, Seq::<char>::empty());
    } else {
        let tail = words.drop_first();
        let rest = record(tail);
        assert forall|i: int| 0 <= i < tail.len() implies is_word(#[trigger] tail[i]) by {
            assert(tail[i] == words[i + 1]);
        }
        lemma_record_fields(tail, 0);
        let s = record(words);
        assert(s == w + seq![' '] + rest);
        assert(s[0] == w[0]);
        if k == 0 {
            assert(s =~= w + (seq![' '] + rest));
            lemma_first_field(w, seq![' '] + rest);
        } else {
            lemma_record_fields(tail, (k - 1) as nat);
            lemma_next_field(w, rest, (k - 1) as nat);
            assert(tail[k - 1] == words[k as int]);
        }
    }
}

/// The six fields of the FEN record of a board.
pub open spec fn fen_fields(b: Board) -> Seq<Seq<char>> {
    seq![
        rows_text(b, 8),
        seq![turn_char(b.next_to_move)],
        rights_text(b),
        target_text(b),
        decimal(b.halfmove_counter as nat),
        decimal(b.move_number as nat),
    ]
}

/// Concatenation may be regrouped.
pub proof fn lemma_regroup(p: Seq<char>, a: Seq<char>, b: Seq<char>, c: Seq<char>)
    ensures
        ((p + a) + b) + c == p + ((a + b) + c),
{
    assert(((p + a) + b) + c =~= p + ((a + b) + c));
}

/// A record of six words, written out.
pub proof fn lemma_record_of_six(
    f0: Seq<char>,
    f1: Seq<char>,
    f2: Seq<char>,
    f3: Seq<char>,
    f4: Seq<char>,
    f5: Seq<char>,
)
    ensures
        record(seq![f0, f1, f2, f3, f4, f5]) == f0 + seq![' '] + f1 + seq![' '] + f2 + seq![' ']
            + f3 + seq![' '] + f4 + seq![' '] + f5,
{
    let sp = seq![' '];
    let w = seq![f0, f1, f2, f3, f4, f5];
    let w1 = w.drop_first();
    let w2 = w1.drop_first();
    let w3 = w2.drop_first();
    let w4 = w3.drop_first();
    let w5 = w4.drop_first();
    let r5 = f5;
    let r4 = f4 + sp + r5;
    let r3 = f3 + sp + r4;
    let r2 = f2 + sp + r3;
    let r1 = f1 + sp + r2;
    let r0 = f0 + sp + r1;
    assert(record(w5) == r5);
    assert(record(w4) == r4);
    assert(record(w3) == r3);
    assert(record(w2) == r2);
    assert(record(w1) == r1);
    assert(record(w) == r0);
    let lead0 = f0 + sp;
    let lead1 = lead0 + f1 + sp;
    let lead2 = lead1 + f2 + sp;
    let lead3 = lead2 + f3 + sp;
    let lead4 = lead3 + f4 + sp;
    lemma_regroup(lead3, f4, sp, r5);
    lemma_regroup(lead2, f3, sp, r4);
    lemma_regroup(lead1, f2, sp, r3);
    lemma_regroup(lead0, f1, sp, r2);
    assert(lead4 + r5 == lead3 + r4);
    assert(lead3 + r4 == lead2 + r3);
    assert(lead2 + r3 == lead1 + r2);
    assert(lead1 + r2 == lead0 + r1);
}

/// The FEN record of a board is the record of its six fields.
pub proof fn lemma_fen_text_is_record(b: Board)
    ensures
        fen_text(b) == record(fen_fields(b)),
{
    lemma_record_of_six(
        rows_text(b, 8),
        seq![turn_char(b.next_to_move)],
        rights_text(b),
        target_text(b),
        decimal(b.halfmove_counter as nat),
        decimal(b.move_number as nat),
    );
}

/// The fields of the FEN record of a board are words that read back as
/// what the board holds.
pub proof fn lemma_fen_fields(b: Board)
    requires
        b.wf(),
    ensures
        field_start(fen_text(b), 5) < fen_text(b).len(),
        parse_placement(field(fen_text(b), 0)) == Some(b.tiles),
        parse_turn(field(fen_text(b), 1)) == Some(b.next_to_move),
        field(fen_text(b), 2) == rights_text(b),
        parse_target(field(fen_text(b), 3)) == Some(b.en_passant_square),
        parse_number(field(fen_text(b), 4)) == Some(b.halfmove_counter),
        parse_number(field(fen_text(b), 5)) == Some(b.move_number),
{
    let w = fen_fields(b);
    lemma_rows_are_a_word(b, 8);
    lemma_placement_round_trip(b);
    lemma_rights_round_trip(b);
    lemma_target_round_trip(b);
    lemma_number_round_trip(b.halfmove_counter);
    lemma_number_round_trip(b.move_number);
    assert(is_word(w[1]));
    lemma_fen_text_is_record(b);
    lemma_record_fields(w, 0);
    lemma_record_fields(w, 1);
    lemma_record_fields(w, 2);
    lemma_record_fields(w, 3);
    lemma_record_fields(w, 4);
    lemma_record_fields(w, 5);
}

/// FEN round trip: the record of a board that holds a king of each color
/// reads back as that board, with no check recorded.
pub proof fn lemma_fen_round_trip(b: Board)
    requires
        b.wf(),
        b.king_square(Color::White) is Some,
        b.king_square(Color::Black) is Some,
    ensures
        parse_fen(fen_text(b)) == Ok::<Board, Error>(Board { checking_pieces: 0, ..b }),
        b.checking_pieces == 0 ==> parse_fen(fen_text(b)) == Ok::<Board, Error>(b),
{
    lemma_fen_fields(b);
    lemma_rights_round_trip(b);
    let got = Board { checking_pieces: 0, ..b };
    assert(got.king_square(Color::White) == b.king_square(Color::White)) by {
        lemma_same_grid_same_king(got, b, Color::White, 0);
    }
    assert(got.king_square(Color::Black) == b.king_square(Color::Black)) by {
        lemma_same_grid_same_king(got, b, Color::Black, 0);
    }
}

/// Two boards with the same grid hold their kings on the same squares.
pub proof fn lemma_same_grid_same_king(a: Board, b: Board, color: Color, idx: int)
    requires
        a.tiles == b.tiles,
        0 <= idx <= 64,
    ensures
        a.find_from(Piece { color, kind: crate::piece::Kind::King }, idx) == b.find_from(
            Piece { color, kind: crate::piece::Kind::King },
            idx,
        ),
    decreases 64 - idx,
{
    if idx < 64 {
        lemma_same_grid_same_king(a, b, color, idx + 1);
    }
}

} // verus!
