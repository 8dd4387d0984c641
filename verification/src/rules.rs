//! The rules of movement stated directly, and the proof that the
//! generators produce exactly the moves that the rules allow.

use vstd::prelude::*;
use crate::board::Board;
use crate::game::{
    after_move,
    all_moves,
    is_en_passant,
    moves_from,
    moves_upto,
    refusal,
    square_behind,
    state_of,
    GameState,
    HALFMOVE_LIMIT,
};
use crate::invariants::{lemma_move_shape, sound};
use crate::legality::{
    in_check,
    king_of,
    knight_leap,
    lemma_attacked_alike,
    lemma_en_passant_looks_alike,
    lemma_king_destination,
    lemma_king_safe_is_no_check,
    lemma_king_square,
    lemma_knight_destination,
    lemma_legal_move_leaves_no_check,
    lemma_member_one,
    lemma_member_split,
    lemma_occupant_after,
    lemma_pawn_destination,
    lemma_plain_move_looks_alike,
    lemma_slider_destination,
    neighbors,
    occupant_after,
    seen,
    seen_as,
    single_king,
    sound_castling,
};
use crate::lines::{
    clear_path,
    deltas_of,
    lemma_direction_listed,
    lemma_line_through,
    lemma_listed_direction,
    lemma_off_line,
    lemma_sight_reaches,
    lemma_sweep_reaches,
    line_to,
    slides_in,
    stepped,
    times,
};
use crate::piece::{destinations, king, knight, pawn, Kind, Piece};
use crate::piece::util::{
    along,
    attacked,
    if_safe,
    king_safe,
    lands,
    overlay,
    pin_allows,
    pin_axis,
    ray_attack,
    ray_moves,
    shields,
    slide,
    slider_attack,
    sweep,
    unit_steps,
};
use crate::util::{on_board, Color, Move, Position};

verus! {

/// A pinned piece that leaves the line of its pin exposes its king,
/// whatever pawn leaves the board with it.
pub proof fn lemma_pin_exposes(
    board: Board,
    from: Position,
    color: Color,
    cleared: Seq<Position>,
    to: Position,
)
    requires
        from.wf(),
        to.wf(),
        single_king(board, color),
        pin_axis(board.placement(), color, from) matches Some(axis) && !along(
            to.file - from.file,
            to.rank - from.rank,
            axis,
        ),
        cleared.contains(from),
        forall|x: Position|
            #[trigger] cleared.contains(x) && x != from ==> (board.at(x) matches Some(q) ==> q.kind
                == Kind::Pawn),
    ensures
        !king_safe(board, color, cleared, seq![to]),
{
    let view = board.placement();
    let axis = pin_axis(view, color, from)->Some_0;
    let dx = axis.0;
    let dy = axis.1;
    assert(shields(view, color, from, dx, dy));
    assert(stepped(from, dx, dy, 0) == from);
    assert(stepped(from, -dx, -dy, 0) == from);
    let n = lemma_sight_reaches(view, from, dx, dy, 0, 7);
    let m = lemma_sight_reaches(view, from, -dx, -dy, 0, 7);
    let king = stepped(from, dx, dy, n);
    let pinner = stepped(from, -dx, -dy, m);
    assert(on_board(times(n, dx) + from.file, times(n, dy) + from.rank));
    assert(on_board(times(m, -dx) + from.file, times(m, -dy) + from.rank));
    lemma_king_square(board, color);
    assert(board.at(king) == Some(king_of(color)));
    assert(board.king_square(color) == Some(king));
    let shown = overlay(view, cleared, seq![to], color);
    assert forall|x: Position| x.wf() && x != to && view(x) is None implies (#[trigger] shown(x))
        is None by {
        lemma_member_one(to, x);
    }
    lemma_off_line(from, -dx, -dy, m, to);
    assert(shown(pinner) == view(pinner)) by {
        lemma_member_one(to, pinner);
    }
    lemma_line_through(view, shown, from, dx, dy, n, m, to);
    let slider = if dx == 0 || dy == 0 {
        Kind::Rook
    } else {
        Kind::Bishop
    };
    assert(ray_attack(shown, color, king, -dx, -dy, slider));
    assert(slider_attack(shown, color, king));
    assert(attacked(shown, color, king)) by {
        reveal(attacked);
    }
}

/// A knight's jump onto a square that the knight may land on, with the
/// king out of danger afterwards, is among the moves of the knight.
pub proof fn lemma_knight_complete(board: Board, from: Position, color: Color, to: Position)
    requires
        from.wf(),
        to.wf(),
        knight_leap(from, to),
        lands(board, color, to),
        king_safe(board, color, seq![from], seq![to]),
        board.checking_pieces <= 1,
    ensures
        knight::moves(board, from, color).contains(to),
{
    reveal(knight::jump);
    let j1 = knight::jump(board, from, color, 2, -1);
    let j2 = knight::jump(board, from, color, 1, -2);
    let j3 = knight::jump(board, from, color, -1, -2);
    let j4 = knight::jump(board, from, color, -2, -1);
    let j5 = knight::jump(board, from, color, -2, 1);
    let j6 = knight::jump(board, from, color, -1, 2);
    let j7 = knight::jump(board, from, color, 1, 2);
    let j8 = knight::jump(board, from, color, 2, 1);
    lemma_member_one(to, to);
    lemma_member_split(j1 + j2 + j3 + j4 + j5 + j6 + j7, j8, to);
    lemma_member_split(j1 + j2 + j3 + j4 + j5 + j6, j7, to);
    lemma_member_split(j1 + j2 + j3 + j4 + j5, j6, to);
    lemma_member_split(j1 + j2 + j3 + j4, j5, to);
    lemma_member_split(j1 + j2 + j3, j4, to);
    lemma_member_split(j1 + j2, j3, to);
    lemma_member_split(j1, j2, to);
    let df = to.file - from.file;
    let dr = to.rank - from.rank;
    assert(from.shifted(df, dr) == Some(to));
}

/// A step of the king onto a neighboring square that it may land on and
/// that is not attacked once the king has left is among the moves of the
/// king, and so is a castling move that the rule of castling allows.
pub proof fn lemma_king_complete(board: Board, from: Position, color: Color, to: Position)
    requires
        from.wf(),
        to.wf(),
        neighbors(from, to) && lands(board, color, to) && !king::exposed(board, from, color, to)
            || to == king::castling_target(color, true) && king::may_castle(
            board,
            from,
            color,
            true,
        ) || to == king::castling_target(color, false) && king::may_castle(
            board,
            from,
            color,
            false,
        ),
    ensures
        king::moves(board, from, color).contains(to),
{
    reveal(king::step);
    reveal(king::castle);
    let s1 = king::step(board, from, color, 1, 0);
    let s2 = king::step(board, from, color, 1, -1);
    let s3 = king::step(board, from, color, 0, -1);
    let s4 = king::step(board, from, color, -1, -1);
    let s5 = king::step(board, from, color, -1, 0);
    let s6 = king::step(board, from, color, -1, 1);
    let s7 = king::step(board, from, color, 0, 1);
    let s8 = king::step(board, from, color, 1, 1);
    let q = king::castle(board, from, color, false);
    let k = king::castle(board, from, color, true);
    lemma_member_one(to, to);
    lemma_member_split(s1 + s2 + s3 + s4 + s5 + s6 + s7 + s8 + q, k, to);
    lemma_member_split(s1 + s2 + s3 + s4 + s5 + s6 + s7 + s8, q, to);
    lemma_member_split(s1 + s2 + s3 + s4 + s5 + s6 + s7, s8, to);
    lemma_member_split(s1 + s2 + s3 + s4 + s5 + s6, s7, to);
    lemma_member_split(s1 + s2 + s3 + s4 + s5, s6, to);
    lemma_member_split(s1 + s2 + s3 + s4, s5, to);
    lemma_member_split(s1 + s2 + s3, s4, to);
    lemma_member_split(s1 + s2, s3, to);
    lemma_member_split(s1, s2, to);
    if to == king::castling_target(color, true) && king::may_castle(board, from, color, true) {
        assert(k.contains(to));
    } else if to == king::castling_target(color, false) && king::may_castle(
        board,
        from,
        color,
        false,
    ) {
        assert(q.contains(to));
    } else {
        let df = to.file - from.file;
        let dr = to.rank - from.rank;
        assert(from.shifted(df, dr) == Some(to));
    }
}

/// Where a pawn may go if kings could be left in check: one square ahead
/// onto an empty square, two squares ahead from its starting rank over an
/// empty square onto an empty square, or one square diagonally ahead onto
/// an enemy or onto the en passant target.
pub open spec fn pawn_reaches(board: Board, from: Position, color: Color, to: Position) -> bool {
    let fwd = color.forward();
    ||| to.file == from.file && to.rank == from.rank + fwd && board.at(to) is None
    ||| to.file == from.file && to.rank == from.rank + 2 * fwd && from.rank
        == pawn::starting_rank(color) && board.at(
        Position { file: from.file, rank: (from.rank + fwd) as u8 },
    ) is None && board.at(to) is None
    ||| (to.file == from.file + 1 || to.file == from.file - 1) && to.rank == from.rank + fwd && (
    board.en_passant_square == Some(to) || (board.at(to) matches Some(q) && q.color != color))
}

/// The squares that a pawn's move vacates, as the threat query is told.
pub open spec fn pawn_vacates(board: Board, from: Position, to: Position) -> Seq<Position> {
    if to.file == from.file {
        seq![from]
    } else {
        pawn::vacated(board, from, to)
    }
}

/// A move of a pawn to a square that it reaches, with the king out of
/// danger afterwards, is among the moves of the pawn, if only pawns are
/// captured en passant.
pub proof fn lemma_pawn_complete(board: Board, from: Position, color: Color, to: Position)
    requires
        from.wf(),
        to.wf(),
        pawn_reaches(board, from, color, to),
        king_safe(board, color, pawn_vacates(board, from, to), seq![to]),
        board.checking_pieces <= 1,
        single_king(board, color),
        board.at(Position { file: to.file, rank: from.rank }) matches Some(q) ==> q.kind
            == Kind::Pawn || to.file == from.file || board.en_passant_square != Some(to),
    ensures
        pawn::moves(board, from, color).contains(to),
{
    reveal(pawn::advance);
    reveal(pawn::double_advance);
    reveal(pawn::capture);
    let a = pawn::advance(board, from, color);
    let d = pawn::double_advance(board, from, color);
    let l = pawn::capture(board, from, color, -1);
    let r = pawn::capture(board, from, color, 1);
    lemma_member_one(to, to);
    lemma_member_split(a + d + l, r, to);
    lemma_member_split(a + d, l, to);
    lemma_member_split(a, d, to);
    let df = to.file - from.file;
    let dr = to.rank - from.rank;
    assert(from.shifted(df, dr) == Some(to));
    let cleared = pawn_vacates(board, from, to);
    assert(cleared.contains(from)) by {
        assert(cleared[0] == from);
    }
    let pin = pin_axis(board.placement(), color, from);
    if !pin_allows(pin, df, dr) {
        assert forall|x: Position| #[trigger] cleared.contains(x) && x != from implies (board.at(
            x,
        ) matches Some(q) ==> q.kind == Kind::Pawn) by {
            let beside = Position { file: to.file, rank: from.rank };
            lemma_member_one(from, x);
            lemma_member_one(beside, x);
            lemma_member_split(seq![from], seq![beside], x);
            assert(seq![from, beside] =~= seq![from] + seq![beside]);
        }
        lemma_pin_exposes(board, from, color, cleared, to);
    }
}

/// The end of a clear line from a sliding piece is among its moves along
/// that line, if the piece may land there with the king out of danger.
pub proof fn lemma_ray_complete(
    board: Board,
    from: Position,
    color: Color,
    dx: int,
    dy: int,
    m: int,
    n: int,
    steps: nat,
    to: Position,
)
    requires
        from.wf(),
        -1 <= dx <= 1,
        -1 <= dy <= 1,
        0 <= m < n <= m + steps,
        clear_path(board, from, dx, dy, n),
        to == stepped(from, dx, dy, n),
        lands(board, color, to),
        king_safe(board, color, seq![from], seq![to]),
    ensures
        ray_moves(board, from, color, stepped(from, dx, dy, m), dx, dy, steps).contains(to),
    decreases n - m,
{
    let cur = stepped(from, dx, dy, m);
    let next = stepped(from, dx, dy, m + 1);
    assert(on_board(times(m + 1, dx) + from.file, times(m + 1, dy) + from.rank));
    if m > 0 {
        assert(on_board(times(m, dx) + from.file, times(m, dy) + from.rank));
    }
    assert(cur.shifted(dx, dy) == Some(next));
    lemma_member_one(to, to);
    if m + 1 < n {
        assert(board.at(next) is None);
        let rest = ray_moves(board, from, color, next, dx, dy, (steps - 1) as nat);
        lemma_ray_complete(board, from, color, dx, dy, m + 1, n, (steps - 1) as nat, to);
        lemma_member_split(if_safe(board, from, color, next), rest, to);
    } else {
        assert(next == to);
        match board.at(next) {
            None => {
                let rest = ray_moves(board, from, color, next, dx, dy, (steps - 1) as nat);
                lemma_member_split(if_safe(board, from, color, next), rest, to);
            },
            Some(q) => {},
        }
    }
}

/// What is among the moves along one direction of a list is among the
/// moves over the whole list.
pub proof fn lemma_sweep_complete(
    board: Board,
    from: Position,
    color: Color,
    deltas: Seq<(i8, i8)>,
    i: int,
    to: Position,
)
    requires
        0 <= i < deltas.len(),
        slide(board, from, color, deltas[i].0 as int, deltas[i].1 as int).contains(to),
    ensures
        sweep(board, from, color, deltas).contains(to),
    decreases deltas.len(),
{
    let d = deltas.last();
    let before = sweep(board, from, color, deltas.drop_last());
    let here = slide(board, from, color, d.0 as int, d.1 as int);
    lemma_member_split(before, here, to);
    if i < deltas.len() - 1 {
        assert(deltas.drop_last()[i] == deltas[i]);
        lemma_sweep_complete(board, from, color, deltas.drop_last(), i, to);
    }
}

/// The end of a clear line in one of the directions of a sliding piece is
/// among the moves of the piece, if the piece may land there with the king
/// out of danger.
pub proof fn lemma_slide_complete(
    board: Board,
    from: Position,
    color: Color,
    deltas: Seq<(i8, i8)>,
    i: int,
    n: int,
    to: Position,
)
    requires
        from.wf(),
        to.wf(),
        0 <= i < deltas.len(),
        unit_steps(deltas),
        deltas[i].0 != 0 || deltas[i].1 != 0,
        1 <= n <= 7,
        clear_path(board, from, deltas[i].0 as int, deltas[i].1 as int, n),
        to == stepped(from, deltas[i].0 as int, deltas[i].1 as int, n),
        lands(board, color, to),
        king_safe(board, color, seq![from], seq![to]),
        single_king(board, color),
    ensures
        sweep(board, from, color, deltas).contains(to),
{
    let dx = deltas[i].0 as int;
    let dy = deltas[i].1 as int;
    assert(stepped(from, dx, dy, 0) == from);
    assert(on_board(times(n, dx) + from.file, times(n, dy) + from.rank));
    let pin = pin_axis(board.placement(), color, from);
    if !pin_allows(pin, dx, dy) {
        let cleared = seq![from];
        assert(cleared.contains(from)) by {
            assert(cleared[0] == from);
        }
        assert forall|x: Position| #[trigger] cleared.contains(x) && x != from implies (board.at(
            x,
        ) matches Some(q) ==> q.kind == Kind::Pawn) by {
            lemma_member_one(from, x);
        }
        lemma_pin_exposes(board, from, color, cleared, to);
    }
    lemma_ray_complete(board, from, color, dx, dy, 0, n, 7, to);
    lemma_sweep_complete(board, from, color, deltas, i, to);
}

/// Whether `to` lies at the end of a clear line from `from` in a direction
/// in which a piece of `kind` slides.
pub open spec fn slides(board: Board, from: Position, kind: Kind, to: Position) -> bool {
    exists|dx: int, dy: int, n: int|
        #[trigger] line_to(board, from, dx, dy, n, to) && slides_in(kind, dx, dy)
}

/// Where a piece may go if kings could be left in check: a knight a
/// knight's jump away, a king to a neighboring square, a rook, bishop or
/// queen along a clear line, each onto a square that holds none of its
/// side's pieces, and a pawn as pawns do.
pub open spec fn reaches(board: Board, from: Position, piece: Piece, to: Position) -> bool {
    match piece.kind {
        Kind::Knight => knight_leap(from, to) && lands(board, piece.color, to),
        Kind::King => neighbors(from, to) && lands(board, piece.color, to),
        Kind::Pawn => pawn_reaches(board, from, piece.color, to),
        _ => slides(board, from, piece.kind, to) && lands(board, piece.color, to),
    }
}

/// The rules of the game: a move is legal if it moves a piece of the side
/// to move, and either the piece is a king that castles as the rule of
/// castling allows, or the piece goes where pieces of its kind may go and
/// the move does not leave its own king in check.
pub open spec fn legal(board: Board, mv: Move) -> bool {
    match board.at(mv.from) {
        Some(piece) => {
            &&& piece.color == board.next_to_move
            &&& {
                ||| piece.kind == Kind::King && sound_castling(
                    board,
                    mv.from,
                    piece.color,
                    mv.to,
                )
                ||| reaches(board, mv.from, piece, mv.to) && !in_check(
                    after_move(board, mv, Kind::Queen),
                    piece.color,
                )
            }
        },
        None => false,
    }
}

/// Every destination of a sliding piece lies at the end of a clear line in
/// one of its directions.
pub proof fn lemma_slider_slides(board: Board, from: Position, color: Color, kind: Kind, to: Position)
    requires
        from.wf(),
        kind == Kind::Rook || kind == Kind::Bishop || kind == Kind::Queen,
        sweep(board, from, color, deltas_of(kind)).contains(to),
    ensures
        slides(board, from, kind, to),
{
    lemma_listed_direction(kind, 0);
    let r = lemma_sweep_reaches(board, from, color, deltas_of(kind), to);
    lemma_listed_direction(kind, r.0);
    let d = deltas_of(kind)[r.0];
    assert(line_to(board, from, d.0 as int, d.1 as int, r.1, to));
}

/// A move that the game accepts goes where its piece may go, or castles.
pub proof fn lemma_accepted_moves_reach(board: Board, mv: Move)
    requires
        mv.wf(),
        refusal(board, mv) is None,
    ensures
        reaches(board, mv.from, board.at(mv.from)->Some_0, mv.to) || (board.at(
            mv.from,
        )->Some_0.kind == Kind::King && sound_castling(
            board,
            mv.from,
            board.next_to_move,
            mv.to,
        )),
{
    let c = board.next_to_move;
    let piece = board.at(mv.from)->Some_0;
    lemma_move_shape(board, mv);
    lemma_member_one(mv.from, mv.to);
    match piece.kind {
        Kind::Rook | Kind::Bishop | Kind::Queen => {
            lemma_slider_slides(board, mv.from, c, piece.kind, mv.to);
        },
        Kind::Knight => {
            lemma_knight_destination(board, mv.from, c, mv.to);
        },
        _ => {},
    }
}

/// A move of a piece other than the king that does not leave the king in
/// check keeps it out of danger in the eyes of the threat query.
proof fn lemma_no_check_is_safe(board: Board, mv: Move, cleared: Seq<Position>)
    requires
        mv.wf(),
        mv.to != mv.from,
        board.at(mv.from) matches Some(piece) && piece.color == board.next_to_move && piece.kind
            != Kind::King,
        single_king(board, board.next_to_move),
        !in_check(after_move(board, mv, Kind::Queen), board.next_to_move),
        board.at(mv.to) != Some(king_of(board.next_to_move)),
        is_en_passant(board, mv) ==> (match square_behind(board, mv) {
            Some(t) => board.at(t) != Some(king_of(board.next_to_move)),
            None => true,
        }),
        forall|p: Position|
            p.wf() ==> seen_as(
                board.next_to_move,
                #[trigger] overlay(board.placement(), cleared, seq![mv.to], board.next_to_move)(p),
            ) == seen_as(board.next_to_move, occupant_after(board, mv, Kind::Queen, p)),
    ensures
        king_safe(board, board.next_to_move, cleared, seq![mv.to]),
{
    let c = board.next_to_move;
    let after = after_move(board, mv, Kind::Queen);
    let view = overlay(board.placement(), cleared, seq![mv.to], c);
    lemma_king_square(board, c);
    lemma_king_square(after, c);
    match board.king_square(c) {
        Some(k) => {
            lemma_occupant_after(board, mv, Kind::Queen, k);
            assert(after.at(k) == Some(king_of(c)));
            let k2 = after.king_square(c)->Some_0;
            lemma_occupant_after(board, mv, Kind::Queen, k2);
            assert(board.at(k2) == Some(king_of(c)));
            assert(k2 == k);
            assert forall|p: Position| p.wf() && p != k implies #[trigger] seen(view, c, p)
                == seen(after.placement(), c, p) by {
                lemma_occupant_after(board, mv, Kind::Queen, p);
                assert(seen_as(c, view(p)) == seen_as(
                    c,
                    occupant_after(board, mv, Kind::Queen, p),
                ));
            }
            lemma_attacked_alike(view, after.placement(), c, k);
        },
        None => {},
    }
}

/// A step of the king that does not leave it in check takes it to a
/// square that is not attacked once it has left its own.
proof fn lemma_no_check_is_unexposed(board: Board, mv: Move)
    requires
        mv.wf(),
        board.at(mv.from) == Some(king_of(board.next_to_move)),
        neighbors(mv.from, mv.to),
        single_king(board, board.next_to_move),
        !in_check(after_move(board, mv, Kind::Queen), board.next_to_move),
    ensures
        !king::exposed(board, mv.from, board.next_to_move, mv.to),
{
    let c = board.next_to_move;
    let after = after_move(board, mv, Kind::Queen);
    let view = overlay(board.placement(), seq![mv.from], seq![], c);
    lemma_king_square(after, c);
    lemma_occupant_after(board, mv, Kind::Queen, mv.to);
    assert(after.at(mv.to) == Some(king_of(c)));
    let k2 = after.king_square(c)->Some_0;
    lemma_occupant_after(board, mv, Kind::Queen, k2);
    assert(k2 == mv.to);
    assert forall|p: Position| p.wf() && p != k2 implies #[trigger] seen(view, c, p) == seen(
        after.placement(),
        c,
        p,
    ) by {
        lemma_occupant_after(board, mv, Kind::Queen, p);
        lemma_member_one(mv.from, p);
    }
    lemma_attacked_alike(view, after.placement(), c, k2);
}

/// A legal move of a knight is among the moves of the knight.
proof fn lemma_knight_generated(board: Board, mv: Move)
    requires
        mv.wf(),
        sound(board),
        board.at(mv.from) == Some(Piece { color: board.next_to_move, kind: Kind::Knight }),
        knight_leap(mv.from, mv.to),
        lands(board, board.next_to_move, mv.to),
        !in_check(after_move(board, mv, Kind::Queen), board.next_to_move),
    ensures
        knight::moves(board, mv.from, board.next_to_move).contains(mv.to),
{
    let c = board.next_to_move;
    assert forall|p: Position| p.wf() implies seen_as(
        c,
        #[trigger] overlay(board.placement(), seq![mv.from], seq![mv.to], c)(p),
    ) == seen_as(c, occupant_after(board, mv, Kind::Queen, p)) by {
        lemma_plain_move_looks_alike(board, mv, Kind::Queen, p);
    }
    lemma_no_check_is_safe(board, mv, seq![mv.from]);
    lemma_knight_complete(board, mv.from, c, mv.to);
}

/// A legal move of a rook, a bishop or a queen is among the moves of the
/// piece.
proof fn lemma_slider_generated(board: Board, mv: Move, kind: Kind)
    requires
        mv.wf(),
        sound(board),
        kind == Kind::Rook || kind == Kind::Bishop || kind == Kind::Queen,
        board.at(mv.from) == Some(Piece { color: board.next_to_move, kind }),
        slides(board, mv.from, kind, mv.to),
        lands(board, board.next_to_move, mv.to),
        !in_check(after_move(board, mv, Kind::Queen), board.next_to_move),
    ensures
        sweep(board, mv.from, board.next_to_move, deltas_of(kind)).contains(mv.to),
{
    let c = board.next_to_move;
    let from = mv.from;
    let to = mv.to;
    let w = choose|dx: int, dy: int, n: int| #[trigger]
        line_to(board, from, dx, dy, n, to) && slides_in(kind, dx, dy);
    let dx = w.0;
    let dy = w.1;
    let n = w.2;
    assert(on_board(times(n, dx) + from.file, times(n, dy) + from.rank));
    assert(to != from);
    assert forall|p: Position| p.wf() implies seen_as(
        c,
        #[trigger] overlay(board.placement(), seq![from], seq![to], c)(p),
    ) == seen_as(c, occupant_after(board, mv, Kind::Queen, p)) by {
        lemma_plain_move_looks_alike(board, mv, Kind::Queen, p);
    }
    lemma_no_check_is_safe(board, mv, seq![from]);
    let i = lemma_direction_listed(kind, dx, dy);
    lemma_listed_direction(kind, i);
    lemma_slide_complete(board, from, c, deltas_of(kind), i, n, to);
}

/// A legal move of a pawn is among the moves of the pawn.
proof fn lemma_pawn_generated(board: Board, mv: Move)
    requires
        mv.wf(),
        sound(board),
        board.at(mv.from) == Some(Piece { color: board.next_to_move, kind: Kind::Pawn }),
        pawn_reaches(board, mv.from, board.next_to_move, mv.to),
        !in_check(after_move(board, mv, Kind::Queen), board.next_to_move),
    ensures
        pawn::moves(board, mv.from, board.next_to_move).contains(mv.to),
{
    let c = board.next_to_move;
    let from = mv.from;
    let to = mv.to;
    let cleared = pawn_vacates(board, from, to);
    assert forall|p: Position| p.wf() implies seen_as(
        c,
        #[trigger] overlay(board.placement(), cleared, seq![to], c)(p),
    ) == seen_as(c, occupant_after(board, mv, Kind::Queen, p)) by {
        if to.file == from.file {
            lemma_plain_move_looks_alike(board, mv, Kind::Queen, p);
        } else {
            lemma_en_passant_looks_alike(board, mv, Kind::Queen, p);
        }
    }
    lemma_no_check_is_safe(board, mv, cleared);
    lemma_pawn_complete(board, from, c, to);
}

/// A legal move is among the moves that the generators produce.
pub proof fn lemma_legal_moves_are_generated(board: Board, mv: Move)
    requires
        mv.wf(),
        sound(board),
        legal(board, mv),
    ensures
        refusal(board, mv) is None,
{
    let c = board.next_to_move;
    let piece = board.at(mv.from)->Some_0;
    let from = mv.from;
    let to = mv.to;
    if piece.kind == Kind::King && sound_castling(board, from, c, to) {
        lemma_king_complete(board, from, c, to);
    } else {
        match piece.kind {
            Kind::Knight => {
                lemma_knight_generated(board, mv);
            },
            Kind::Rook | Kind::Bishop | Kind::Queen => {
                lemma_slider_generated(board, mv, piece.kind);
            },
            Kind::Pawn => {
                lemma_pawn_generated(board, mv);
            },
            Kind::King => {
                lemma_no_check_is_unexposed(board, mv);
                lemma_king_complete(board, from, c, to);
            },
        }
    }
}

/// The game accepts exactly the legal moves: in a position that play can
/// reach, a move is accepted if and only if the rules allow it.
pub proof fn lemma_accepted_moves_are_the_legal_moves(board: Board, mv: Move)
    requires
        mv.wf(),
        sound(board),
    ensures
        refusal(board, mv) is None <==> legal(board, mv),
{
    if refusal(board, mv) is None {
        lemma_accepted_moves_reach(board, mv);
        lemma_legal_move_leaves_no_check(board, mv, Kind::Queen);
    }
    if legal(board, mv) {
        lemma_legal_moves_are_generated(board, mv);
    }
}

/// Whether the side to move has a legal move.
pub open spec fn has_legal_move(board: Board) -> bool {
    exists|mv: Move| mv.wf() && #[trigger] legal(board, mv)
}

/// How the rules classify a position: without a legal move the side to
/// move is checkmated if it is in check and the game is drawn if it is not;
/// with one, the game is drawn once the halfmove counter has reached the
/// limit, and goes on otherwise.
pub open spec fn verdict(board: Board) -> GameState {
    if !has_legal_move(board) {
        if in_check(board, board.next_to_move) {
            GameState::Checkmate { winner: board.next_to_move.flip() }
        } else {
            GameState::Draw
        }
    } else if board.halfmove_counter >= HALFMOVE_LIMIT {
        GameState::Draw
    } else {
        GameState::Ongoing
    }
}

/// The generators produce squares of the board only.
pub proof fn lemma_destinations_on_board(board: Board, from: Position, kind: Kind, to: Position)
    requires
        from.wf(),
        destinations(board, from, kind).contains(to),
    ensures
        to.wf(),
        board.at(from) is Some,
{
    lemma_member_one(from, to);
    let c = board.at(from)->Some_0.color;
    match kind {
        Kind::Knight => {
            lemma_knight_destination(board, from, c, to);
        },
        Kind::Rook | Kind::Bishop | Kind::Queen => {
            lemma_slider_destination(board, from, c, kind, to);
        },
        Kind::Pawn => {
            lemma_pawn_destination(board, from, c, to);
        },
        Kind::King => {
            lemma_king_destination(board, from, c, to);
        },
    }
}

/// The moves collected over the first `n` squares are none if and only if
/// the moves from each of those squares are none.
pub proof fn lemma_no_moves_upto(board: Board, n: int)
    requires
        0 <= n <= 64,
    ensures
        moves_upto(board, n).len() == 0 <==> forall|idx: int|
            0 <= idx < n ==> (#[trigger] moves_from(board, idx)).len() == 0,
    decreases n,
{
    if n > 0 {
        lemma_no_moves_upto(board, n - 1);
        if moves_upto(board, n).len() == 0 {
            assert forall|idx: int| 0 <= idx < n implies (#[trigger] moves_from(board, idx)).len()
                == 0 by {
                if idx < n - 1 {
                } else {
                }
            }
        }
    }
}

/// The generators find no move at all if and only if there is no legal
/// move.
pub proof fn lemma_no_moves_is_no_legal_move(board: Board)
    requires
        sound(board),
    ensures
        all_moves(board).len() == 0 <==> !has_legal_move(board),
{
    lemma_no_moves_upto(board, 64);
    if all_moves(board).len() == 0 {
        assert forall|mv: Move| mv.wf() implies !#[trigger] legal(board, mv) by {
            if legal(board, mv) {
                lemma_legal_moves_are_generated(board, mv);
                let idx = mv.from.rank * 8 + mv.from.file;
                assert(Board::square(idx) == mv.from);
                assert(moves_from(board, idx).contains(mv.to));
            }
        }
    } else {
        let idx = choose|idx: int| 0 <= idx < 64 && (#[trigger] moves_from(board, idx)).len() > 0;
        let from = Board::square(idx);
        let to = moves_from(board, idx)[0];
        assert(moves_from(board, idx).contains(to));
        let piece = board.at(from)->Some_0;
        lemma_destinations_on_board(board, from, piece.kind, to);
        let mv = Move { from, to };
        assert(refusal(board, mv) is None);
        lemma_accepted_moves_are_the_legal_moves(board, mv);
        assert(mv.wf() && legal(board, mv));
    }
}

/// The state that a move returns is the verdict of the rules on the
/// position reached.
pub proof fn lemma_state_is_the_verdict(board: Board)
    requires
        sound(board),
    ensures
        state_of(board) == verdict(board),
{
    lemma_no_moves_is_no_legal_move(board);
    lemma_king_safe_is_no_check(board, board.next_to_move);
}

} // verus!
