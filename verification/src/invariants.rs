//! What holds of every position that play can reach: one king on each
//! side, castling rights only with king and rook at home, an en passant
//! target only behind the pawn that has just passed it, and no check on the
//! side that has just moved.

use vstd::prelude::*;
use crate::board::{is_starting_position, starting_piece, Board};
use crate::board::fen::{fen_text, parse_fen};
use crate::board::round_trip::{lemma_fen_round_trip, lemma_same_grid_same_king};
use crate::error::Error;
use crate::game::{
    after_move,
    checks_after,
    is_castling,
    is_double_advance,
    is_en_passant,
    is_promotion,
    piece_placed,
    refusal,
    rook_corner,
    rook_landing,
    rook_placed,
    square_behind,
};
use crate::legality::{
    in_check,
    king_of,
    lemma_king_destination,
    lemma_king_square,
    lemma_knight_destination,
    lemma_legal_move_leaves_no_check,
    lemma_member_one,
    lemma_occupant_after,
    lemma_occupant_after_castling,
    lemma_pawn_destination,
    lemma_slider_destination,
    lemma_with_piece_at,
    occupant_after,
    single_king,
    sound_castling,
    sound_king_step,
    sound_pawn_step,
    sound_step,
};
use crate::lines::{
    clear_path,
    deltas_of,
    lemma_listed_direction,
    lemma_look_back,
    lemma_sight_reaches,
    lemma_sweep_reaches,
    slides_in,
    stepped,
    times,
};
use crate::piece::{bishop, gives_check, queen, rook, Kind, Piece};
use crate::piece::king::home_rank;
use crate::piece::util::{
    overlay,
    threatened_at,
    attacked,
    foe_at,
    king_attack,
    knight_attack,
    pawn_attack,
    ray_attack,
    ray_check,
    sight,
    slider_attack,
};
use crate::util::{on_board, Color, Move, Position};

verus! {

/// A sliding piece that can go to a square attacks it.
proof fn lemma_slider_strikes(board: Board, from: Position, kind: Kind, to: Position)
    requires
        from.wf(),
        board.at(from) matches Some(piece) && piece.kind == kind,
        match kind {
            Kind::Rook => rook::moves(board, from, board.at(from)->Some_0.color).contains(to),
            Kind::Bishop => bishop::moves(board, from, board.at(from)->Some_0.color).contains(to),
            Kind::Queen => queen::moves(board, from, board.at(from)->Some_0.color).contains(to),
            _ => false,
        },
    ensures
        slider_attack(board.placement(), board.at(from)->Some_0.color.flip(), to),
{
    let color = board.at(from)->Some_0.color;
    let enemy = color.flip();
    let view = board.placement();
    lemma_member_one(from, to);
    let deltas = match kind {
        Kind::Rook => rook::deltas(),
        Kind::Bishop => bishop::deltas(),
        _ => queen::deltas(),
    };
    let r = lemma_sweep_reaches(board, from, color, deltas, to);
    let d = deltas[r.0];
    lemma_look_back(board, from, d.0 as int, d.1 as int, r.1, r.1, 7);
    assert(sight(view, to, -(d.0 as int), -(d.1 as int)) == Some(from));
    let slider = if d.0 == 0 || d.1 == 0 {
        Kind::Rook
    } else {
        Kind::Bishop
    };
    assert(ray_attack(view, enemy, to, -(d.0 as int), -(d.1 as int), slider));
}

/// A piece that can legally capture on a square attacks that square.
pub proof fn lemma_capture_is_attack(board: Board, mv: Move)
    requires
        mv.wf(),
        refusal(board, mv) is None,
        board.at(mv.to) matches Some(q) && q.color != board.next_to_move,
    ensures
        attacked(board.placement(), board.next_to_move.flip(), mv.to),
{
    reveal(attacked);
    let c = board.next_to_move;
    let e = c.flip();
    let view = board.placement();
    let from = mv.from;
    let to = mv.to;
    let piece = board.at(from)->Some_0;
    let df = from.file - to.file;
    let dr = from.rank - to.rank;
    match piece.kind {
        Kind::Knight => {
            lemma_knight_destination(board, from, c, to);
            assert(to.shifted(df, dr) == Some(from));
            assert(foe_at(view, e, to, df, dr, Kind::Knight));
            assert(knight_attack(view, e, to));
        },
        Kind::Rook | Kind::Bishop | Kind::Queen => {
            lemma_slider_strikes(board, from, piece.kind, to);
        },
        Kind::Pawn => {
            lemma_pawn_destination(board, from, c, to);
            assert(to.shifted(df, dr) == Some(from));
            assert(foe_at(view, e, to, df, e.forward(), Kind::Pawn));
            assert(pawn_attack(view, e, to));
        },
        Kind::King => {
            lemma_king_destination(board, from, c, to);
            assert(sound_king_step(board, from, c, to));
            assert(to.shifted(df, dr) == Some(from));
            assert(foe_at(view, e, to, df, dr, Kind::King));
            assert(king_attack(view, e, to));
        },
    }
}

/// Whether exactly one square holds a king of `color`.
pub open spec fn one_king(board: Board, color: Color) -> bool {
    board.king_square(color) is Some && single_king(board, color)
}

/// The square of a file on the home rank of `color`.
pub open spec fn home(color: Color, file: u8) -> Position {
    Position { file, rank: home_rank(color) }
}

/// Whether the castling rights of `color` are held only with the king and
/// the rook of that side on their home squares.
pub open spec fn rights_sound(board: Board, color: Color) -> bool {
    let king = Some(king_of(color));
    let rook = Some(Piece { color, kind: Kind::Rook });
    &&& board.castle_kingside(color) ==> board.at(home(color, 4)) == king && board.at(
        home(color, 7),
    ) == rook
    &&& board.castle_queenside(color) ==> board.at(home(color, 4)) == king && board.at(
        home(color, 0),
    ) == rook
}

/// Whether the en passant target, if any, is an empty square on the third
/// rank of the side that has just moved, right behind a pawn of that side.
pub open spec fn target_sound(board: Board) -> bool {
    match board.en_passant_square {
        Some(t) => t.wf() && board.at(t) is None && t.rank == (if board.next_to_move
            == Color::White {
            2u8
        } else {
            5u8
        }) && match t.shifted(
            0,
            -board.next_to_move.forward(),
        ) {
            Some(q) => board.at(q) == Some(
                Piece { color: board.next_to_move.flip(), kind: Kind::Pawn },
            ),
            None => false,
        },
        None => true,
    }
}

/// What holds of every position that play can reach from the start: one
/// king on each side, castling rights only with king and rook at home, an
/// en passant target only behind the pawn that has just passed it, at most
/// one check recorded and none that is not there, and no check on the side
/// that has just moved.
pub open spec fn sound(board: Board) -> bool {
    &&& board.wf()
    &&& board.checking_pieces <= 1
    &&& board.checking_pieces > 0 ==> in_check(board, board.next_to_move)
    &&& one_king(board, Color::White)
    &&& one_king(board, Color::Black)
    &&& rights_sound(board, Color::White)
    &&& rights_sound(board, Color::Black)
    &&& target_sound(board)
    &&& !in_check(board, board.next_to_move.flip())
}

/// What a square holds after a legal move.
pub open spec fn placed_after(board: Board, mv: Move, promotion: Kind, p: Position) -> Option<
    Piece,
> {
    if is_castling(board, mv) {
        if p == rook_corner(mv) {
            None
        } else if p == rook_landing(mv) {
            board.at(rook_corner(mv))
        } else if p == mv.to {
            board.at(mv.from)
        } else if p == mv.from {
            None
        } else {
            board.at(p)
        }
    } else {
        occupant_after(board, mv, promotion, p)
    }
}

/// What a legal move is known to be, whatever piece makes it.
pub open spec fn move_shape(board: Board, mv: Move) -> bool {
    let c = board.next_to_move;
    let piece = board.at(mv.from)->Some_0;
    &&& board.at(mv.from) is Some
    &&& piece.color == c
    &&& mv.to != mv.from
    &&& match piece.kind {
        Kind::Pawn => sound_pawn_step(board, mv.from, c, mv.to),
        Kind::King => sound_king_step(board, mv.from, c, mv.to) || sound_castling(
            board,
            mv.from,
            c,
            mv.to,
        ),
        _ => sound_step(board, mv.from, c, mv.to),
    }
}

/// Every move that the game accepts has the shape of a legal move.
pub proof fn lemma_move_shape(board: Board, mv: Move)
    requires
        mv.wf(),
        refusal(board, mv) is None,
    ensures
        move_shape(board, mv),
{
    let c = board.next_to_move;
    let piece = board.at(mv.from)->Some_0;
    match piece.kind {
        Kind::Knight => {
            lemma_knight_destination(board, mv.from, c, mv.to);
        },
        Kind::Rook | Kind::Bishop | Kind::Queen => {
            lemma_slider_destination(board, mv.from, c, piece.kind, mv.to);
        },
        Kind::Pawn => {
            lemma_pawn_destination(board, mv.from, c, mv.to);
        },
        Kind::King => {
            lemma_king_destination(board, mv.from, c, mv.to);
        },
    }
}

/// The occupants after a move that has the shape of a legal move.
pub proof fn lemma_placed_after(board: Board, mv: Move, promotion: Kind, p: Position)
    requires
        mv.wf(),
        p.wf(),
        move_shape(board, mv),
    ensures
        after_move(board, mv, promotion).at(p) == placed_after(board, mv, promotion, p),
{
    if is_castling(board, mv) {
        assert(sound_castling(board, mv.from, board.next_to_move, mv.to));
        lemma_occupant_after_castling(board, mv, promotion, p);
    } else {
        lemma_occupant_after(board, mv, promotion, p);
    }
}

/// A legal move takes no king, if the side that has just moved is not in
/// check.
pub proof fn lemma_no_king_is_taken(board: Board, mv: Move)
    requires
        mv.wf(),
        refusal(board, mv) is None,
        sound(board),
    ensures
        board.at(mv.to) != Some(king_of(Color::White)),
        board.at(mv.to) != Some(king_of(Color::Black)),
{
    let c = board.next_to_move;
    let e = c.flip();
    lemma_move_shape(board, mv);
    lemma_king_square(board, e);
    if board.at(mv.to) == Some(king_of(e)) {
        lemma_capture_is_attack(board, mv);
        assert(board.king_square(e) == Some(mv.to));
    }
    if board.at(mv.to) == Some(king_of(c)) {
        assert(board.en_passant_square == Some(mv.to));
    }
}

/// After a legal move each side has one king still.
pub proof fn lemma_kings_stay(board: Board, mv: Move, promotion: Kind, color: Color)
    requires
        mv.wf(),
        refusal(board, mv) is None,
        sound(board),
        promotion != Kind::King,
    ensures
        one_king(after_move(board, mv, promotion), color),
{
    let c = board.next_to_move;
    let after = after_move(board, mv, promotion);
    let king = Some(king_of(color));
    lemma_move_shape(board, mv);
    lemma_no_king_is_taken(board, mv);
    lemma_king_square(board, color);
    lemma_king_square(after, color);
    let k = board.king_square(color)->Some_0;
    let k2 = if k == mv.from {
        mv.to
    } else {
        k
    };
    assert forall|p: Position| p.wf() implies (#[trigger] after.at(p) == king <==> p == k2) by {
        lemma_placed_after(board, mv, promotion, p);
    }
    assert(after.at(k2) == king);
}

/// After a legal move the castling rights that a side still holds go with
/// its king and rook on their home squares.
pub proof fn lemma_rights_stay_sound(board: Board, mv: Move, promotion: Kind, color: Color)
    requires
        mv.wf(),
        refusal(board, mv) is None,
        sound(board),
    ensures
        rights_sound(after_move(board, mv, promotion), color),
{
    let after = after_move(board, mv, promotion);
    lemma_move_shape(board, mv);
    lemma_no_king_is_taken(board, mv);
    lemma_placed_after(board, mv, promotion, home(color, 4));
    lemma_placed_after(board, mv, promotion, home(color, 7));
    lemma_placed_after(board, mv, promotion, home(color, 0));
    assert(after.castle_kingside(color) ==> board.castle_kingside(color));
    assert(after.castle_queenside(color) ==> board.castle_queenside(color));
}

/// After a legal move the en passant target, if any, is an empty square
/// right behind the pawn that has just passed it.
pub proof fn lemma_target_stays_sound(board: Board, mv: Move, promotion: Kind)
    requires
        mv.wf(),
        refusal(board, mv) is None,
        sound(board),
    ensures
        target_sound(after_move(board, mv, promotion)),
{
    let after = after_move(board, mv, promotion);
    lemma_move_shape(board, mv);
    if is_double_advance(board, mv) {
        let t = square_behind(board, mv)->Some_0;
        lemma_placed_after(board, mv, promotion, t);
        lemma_placed_after(board, mv, promotion, mv.to);
        assert(t.shifted(0, -after.next_to_move.forward()) == Some(mv.to));
    }
}

/// A sliding piece with the enemy king first in sight along one of its
/// lines attacks that king.
proof fn lemma_sliding_check_is_real(
    board: Board,
    piece: Piece,
    at: Position,
    dx: int,
    dy: int,
)
    requires
        at.wf(),
        board.at(at) == Some(piece),
        single_king(board, piece.color.flip()),
        slides_in(piece.kind, dx, dy),
        piece.kind == Kind::Rook || piece.kind == Kind::Bishop || piece.kind == Kind::Queen,
        ray_check(board.placement(), piece.color, at, dx, dy),
    ensures
        board.king_square(piece.color.flip()) matches Some(k) && slider_attack(
            board.placement(),
            piece.color.flip(),
            k,
        ),
{
    let e = piece.color.flip();
    let view = board.placement();
    lemma_king_square(board, e);
    assert(stepped(at, dx, dy, 0) == at);
    let n = lemma_sight_reaches(view, at, dx, dy, 0, 7);
    let k = stepped(at, dx, dy, n);
    assert(on_board(times(n, dx) + at.file, times(n, dy) + at.rank));
    assert(board.at(k) == Some(king_of(e)));
    assert(board.king_square(e) == Some(k));
    assert(clear_path(board, at, dx, dy, n));
    lemma_look_back(board, at, dx, dy, n, n, 7);
    let slider = if dx == 0 || dy == 0 {
        Kind::Rook
    } else {
        Kind::Bishop
    };
    assert(ray_attack(view, e, k, -dx, -dy, slider));
}

/// A knight or a pawn that gives check attacks the enemy king.
proof fn lemma_leaping_check_is_real(board: Board, piece: Piece, at: Position)
    requires
        at.wf(),
        board.at(at) == Some(piece),
        piece.kind == Kind::Knight || piece.kind == Kind::Pawn,
        gives_check(piece, board, at),
    ensures
        board.king_square(piece.color.flip()) matches Some(k) && (knight_attack(
            board.placement(),
            piece.color.flip(),
            k,
        ) || pawn_attack(board.placement(), piece.color.flip(), k)),
{
    let e = piece.color.flip();
    let view = board.placement();
    lemma_king_square(board, e);
    let k = board.king_square(e)->Some_0;
    let df = at.file - k.file;
    let dr = at.rank - k.rank;
    assert(k.shifted(df, dr) == Some(at));
    if piece.kind == Kind::Knight {
        assert(foe_at(view, e, k, df, dr, Kind::Knight));
    } else {
        assert(foe_at(view, e, k, df, e.forward(), Kind::Pawn));
    }
}

/// A piece that gives check attacks the enemy king.
pub proof fn lemma_check_is_real(board: Board, piece: Piece, at: Position)
    requires
        at.wf(),
        board.at(at) == Some(piece),
        single_king(board, piece.color.flip()),
        gives_check(piece, board, at),
    ensures
        in_check(board, piece.color.flip()),
{
    let c = piece.color;
    match piece.kind {
        Kind::Knight | Kind::Pawn => {
            lemma_leaping_check_is_real(board, piece, at);
        },
        Kind::King => {},
        _ => {
            let deltas = deltas_of(piece.kind);
            let i = choose|i: int|
                0 <= i < deltas.len() && #[trigger] ray_check(
                    board.placement(),
                    c,
                    at,
                    deltas[i].0 as int,
                    deltas[i].1 as int,
                );
            lemma_listed_direction(piece.kind, i);
            lemma_sliding_check_is_real(
                board,
                piece,
                at,
                deltas[i].0 as int,
                deltas[i].1 as int,
            );
        },
    }
    assert(attacked(board.placement(), c.flip(), board.king_square(c.flip())->Some_0)) by {
        reveal(attacked);
    }
}

/// Whether a piece gives check depends on the grid alone.
pub proof fn lemma_check_depends_on_grid(a: Board, b: Board, piece: Piece, at: Position)
    requires
        a.tiles == b.tiles,
    ensures
        gives_check(piece, a, at) == gives_check(piece, b, at),
        in_check(a, piece.color.flip()) == in_check(b, piece.color.flip()),
{
    lemma_same_grid_same_king(a, b, piece.color.flip(), 0);
    assert(a.placement() =~= b.placement());
}

/// After a legal move, a check that is recorded is there.
pub proof fn lemma_recorded_check_is_real(board: Board, mv: Move, promotion: Kind)
    requires
        mv.wf(),
        refusal(board, mv) is None,
        sound(board),
        promotion != Kind::King,
    ensures
        checks_after(board, mv, promotion) > 0 ==> in_check(
            after_move(board, mv, promotion),
            board.next_to_move.flip(),
        ),
{
    let c = board.next_to_move;
    let e = c.flip();
    let after = after_move(board, mv, promotion);
    let piece = board.at(mv.from)->Some_0;
    let lifted = board.with_piece(mv.to, board.at(mv.from)).with_piece(mv.from, None);
    let placed = piece_placed(board, mv, promotion);
    let rooked = rook_placed(board, mv, promotion);
    lemma_move_shape(board, mv);
    lemma_kings_stay(board, mv, promotion, e);
    lemma_placed_after(board, mv, promotion, mv.to);
    if checks_after(board, mv, promotion) > 0 {
        if is_castling(board, mv) {
            let rook = rooked.at(rook_landing(mv))->Some_0;
            lemma_placed_after(board, mv, promotion, rook_landing(mv));
            assert(after.tiles == rooked.tiles);
            lemma_check_depends_on_grid(after, rooked, rook, rook_landing(mv));
            lemma_check_is_real(after, rook, rook_landing(mv));
        } else if is_promotion(board, mv) {
            let promoted = Piece { color: c, kind: promotion };
            assert(!gives_check(piece, lifted, mv.to));
            assert(after.tiles == placed.tiles);
            lemma_check_depends_on_grid(after, placed, promoted, mv.to);
            lemma_check_is_real(after, promoted, mv.to);
        } else if is_en_passant(board, mv) {
            lemma_king_square(lifted, e);
            lemma_king_square(after, e);
            let k = lifted.king_square(e)->Some_0;
            lemma_placed_after(board, mv, promotion, k);
            lemma_with_piece_at(board, mv.to, board.at(mv.from), k);
            lemma_with_piece_at(
                board.with_piece(mv.to, board.at(mv.from)),
                mv.from,
                None,
                k,
            );
            assert(after.at(k) == Some(king_of(e)));
            assert(after.king_square(e) == Some(k));
            lemma_check_is_real(after, piece, mv.to);
        } else {
            assert(after.tiles == lifted.tiles);
            lemma_check_depends_on_grid(after, lifted, piece, mv.to);
            lemma_check_is_real(after, piece, mv.to);
        }
    }
}

/// Sound positions stay sound: a legal move from a position that play can
/// reach leads to a position that play can reach, as long as no pawn is
/// promoted to a king.
pub proof fn lemma_sound_positions_stay_sound(board: Board, mv: Move, promotion: Kind)
    requires
        mv.wf(),
        refusal(board, mv) is None,
        sound(board),
        promotion != Kind::King,
    ensures
        sound(after_move(board, mv, promotion)),
{
    let after = after_move(board, mv, promotion);
    lemma_kings_stay(board, mv, promotion, Color::White);
    lemma_kings_stay(board, mv, promotion, Color::Black);
    lemma_rights_stay_sound(board, mv, promotion, Color::White);
    lemma_rights_stay_sound(board, mv, promotion, Color::Black);
    lemma_target_stays_sound(board, mv, promotion);
    lemma_legal_move_leaves_no_check(board, mv, promotion);
    lemma_move_shape(board, mv);
    assert(checks_after(board, mv, promotion) <= 1);
    lemma_recorded_check_is_real(board, mv, promotion);
}

/// The position at the start of a game is sound.
pub proof fn lemma_starting_position_is_sound(board: Board)
    requires
        is_starting_position(board),
    ensures
        sound(board),
{
    let white_king = Position { file: 4, rank: 7 };
    let black_king = Position { file: 4, rank: 0 };
    assert(board.at(white_king) == starting_piece(white_king));
    assert(board.at(black_king) == starting_piece(black_king));
    lemma_king_square(board, Color::White);
    lemma_king_square(board, Color::Black);
    assert forall|p: Position| p.wf() implies #[trigger] board.at(p) == starting_piece(p) by {}
    assert(single_king(board, Color::White));
    assert(single_king(board, Color::Black));
    assert(board.at(home(Color::White, 0)) == starting_piece(home(Color::White, 0)));
    assert(board.at(home(Color::White, 7)) == starting_piece(home(Color::White, 7)));
    assert(board.at(home(Color::Black, 0)) == starting_piece(home(Color::Black, 0)));
    assert(board.at(home(Color::Black, 7)) == starting_piece(home(Color::Black, 7)));
    assert(rights_sound(board, Color::White));
    assert(rights_sound(board, Color::Black));
    assert(board.king_square(Color::White) is Some) by {
        if board.king_square(Color::White) is None {
            assert(board.at(white_king) != Some(king_of(Color::White)));
        }
    }
    assert(board.king_square(Color::Black) == Some(black_king)) by {
        match board.king_square(Color::Black) {
            Some(k) => {
                assert(board.at(k) == starting_piece(k));
            },
            None => {
                assert(board.at(black_king) != Some(king_of(Color::Black)));
            },
        }
    }
    assert(!attacked(board.placement(), Color::Black, black_king)) by {
        reveal(attacked);
        let view = board.placement();
        assert forall|p: Position| p.wf() implies #[trigger] view(p) == starting_piece(p) by {}
        assert(!knight_attack(view, Color::Black, black_king));
        assert(!pawn_attack(view, Color::Black, black_king));
        assert(!king_attack(view, Color::Black, black_king));
        assert(!slider_attack(view, Color::Black, black_king));
    }
}

/// The board after a run of moves, each with the kind chosen for a
/// promotion; nothing if one of the moves is refused.
pub open spec fn played(board: Board, moves: Seq<(Move, Kind)>) -> Option<Board>
    decreases moves.len(),
{
    if moves.len() == 0 {
        Some(board)
    } else {
        match played(board, moves.drop_last()) {
            Some(b) => if moves.last().0.wf() && refusal(b, moves.last().0) is None {
                Some(after_move(b, moves.last().0, moves.last().1))
            } else {
                None
            },
            None => None,
        }
    }
}

/// Every position that legal moves reach from a sound position is sound,
/// as long as no pawn is promoted to a king.
pub proof fn lemma_play_stays_sound(board: Board, moves: Seq<(Move, Kind)>)
    requires
        sound(board),
        forall|i: int| 0 <= i < moves.len() ==> (#[trigger] moves[i]).1 != Kind::King,
    ensures
        played(board, moves) matches Some(b) ==> sound(b),
    decreases moves.len(),
{
    if moves.len() > 0 {
        let before = moves.drop_last();
        assert forall|i: int| 0 <= i < before.len() implies (#[trigger] before[i]).1
            != Kind::King by {
            assert(before[i] == moves[i]);
        }
        lemma_play_stays_sound(board, before);
        match played(board, before) {
            Some(b) => {
                if moves.last().0.wf() && refusal(b, moves.last().0) is None {
                    lemma_sound_positions_stay_sound(b, moves.last().0, moves.last().1);
                }
            },
            None => {},
        }
    }
}

/// No square before the first square that holds a piece holds it.
proof fn lemma_first_found(board: Board, piece: Piece, idx: int)
    requires
        0 <= idx <= 64,
    ensures
        match board.find_from(piece, idx) {
            Some(k) => idx <= k.rank * 8 + k.file && forall|p: Position|
                p.wf() && idx <= p.rank * 8 + p.file < k.rank * 8 + k.file ==> #[trigger] board.at(
                    p,
                ) != Some(piece),
            None => true,
        },
    decreases 64 - idx,
{
    if idx < 64 {
        lemma_first_found(board, piece, idx + 1);
        match board.find_from(piece, idx) {
            Some(k) => {
                assert forall|p: Position|
                    p.wf() && idx <= p.rank * 8 + p.file < k.rank * 8 + k.file implies #[trigger] board.at(
                    p,
                ) != Some(piece) by {
                    if p.rank * 8 + p.file == idx {
                        assert(Board::square(idx) == p);
                    }
                }
            },
            None => {},
        }
    }
}

impl Board {
    /// Whether exactly one square holds a king of `color`.
    pub fn has_one_king(&self, color: Color) -> (r: bool)
        ensures
            r == one_king(*self, color),
    {
        let king = Piece { color, kind: Kind::King };
        let first = match self.find_king(color) {
            Some(k) => k,
            None => {
                return false;
            },
        };
        proof {
            lemma_first_found(*self, king, 0);
        }
        let mut idx: u8 = first.rank * 8 + first.file + 1;
        while idx < 64
            invariant
                first.wf(),
                first.rank * 8 + first.file < idx <= 64,
                king == king_of(color),
                self.king_square(color) == Some(first),
                self.at(first) == Some(king),
                forall|p: Position|
                    p.wf() && p.rank * 8 + p.file < idx && p != first ==> #[trigger] self.at(p)
                        != Some(king),
            decreases 64 - idx,
        {
            let pos = Position { file: idx % 8, rank: idx / 8 };
            if self.get(pos) == Some(king) {
                return false;
            }
            assert forall|p: Position|
                p.wf() && p.rank * 8 + p.file < idx + 1 && p != first implies #[trigger] self.at(p)
                != Some(king) by {
                if p.rank * 8 + p.file == idx {
                    assert(p == pos);
                }
            }
            idx += 1;
        }
        true
    }

    /// Whether the castling rights of `color` go with its king and rooks on
    /// their home squares.
    pub fn has_sound_rights(&self, color: Color) -> (r: bool)
        ensures
            r == rights_sound(*self, color),
    {
        let rank: u8 = match color {
            Color::White => 7,
            Color::Black => 0,
        };
        let king = Some(Piece { color, kind: Kind::King });
        let rook = Some(Piece { color, kind: Kind::Rook });
        let king_home = self.get(Position { file: 4, rank }) == king;
        (!self.can_castle_kingside(color) || (king_home && self.get(Position { file: 7, rank })
            == rook)) && (!self.can_castle_queenside(color) || (king_home && self.get(
            Position { file: 0, rank },
        ) == rook))
    }

    /// Whether the en passant target, if any, lies right behind a pawn that
    /// can have passed it on the move before.
    pub fn has_sound_target(&self) -> (r: bool)
        ensures
            r == target_sound(*self),
    {
        match self.en_passant_square {
            Some(t) => {
                let rank: u8 = match self.next_to_move {
                    Color::White => 2,
                    Color::Black => 5,
                };
                if t.file < 8 && t.rank == rank && self.get(t).is_none() {
                    match t.offset(0, -self.next_to_move.forwards()) {
                        Some(q) => self.get(q) == Some(
                            Piece { color: self.next_to_move.other(), kind: Kind::Pawn },
                        ),
                        None => false,
                    }
                } else {
                    false
                }
            },
            None => true,
        }
    }

    /// Whether the king of `color` is attacked on the board as it stands.
    pub fn king_attacked(&self, color: Color) -> (r: bool)
        ensures
            r == in_check(*self, color),
    {
        let none: [Position; 0] = [];
        assert(none@ =~= Seq::<Position>::empty());
        assert(overlay(self.placement(), none@, none@, color) =~= self.placement());
        match self.find_king(color) {
            Some(k) => threatened_at(k, &none, &none, color, self),
            None => false,
        }
    }

    /// Whether the position is sound: whether it has what every position has
    /// that play can reach from the start.
    pub fn is_sound(&self) -> (r: bool)
        ensures
            r == sound(*self),
    {
        self.checking_pieces <= 1 && self.has_sound_target() && self.has_one_king(Color::White)
            && self.has_one_king(Color::Black) && self.has_sound_rights(Color::White)
            && self.has_sound_rights(Color::Black) && !self.king_attacked(
            self.next_to_move.other(),
        ) && (self.checking_pieces == 0 || self.king_attacked(self.next_to_move))
    }
}

/// The record of a position that play can reach reads back as that
/// position, with no check recorded.
pub proof fn lemma_sound_positions_round_trip(board: Board)
    requires
        sound(board),
    ensures
        parse_fen(fen_text(board)) == Ok::<Board, Error>(Board { checking_pieces: 0, ..board }),
        board.checking_pieces == 0 ==> parse_fen(fen_text(board)) == Ok::<Board, Error>(board),
{
    lemma_fen_round_trip(board);
}

} // verus!
