//! Why the moves that the generators produce are legal: whichever of them
//! is made, the king of the side that made it is not left in check.

use vstd::prelude::*;
use crate::board::Board;
use crate::piece::util::{
    attacked,
    first_on_ray,
    foe_at,
    if_safe,
    king_attack,
    king_safe,
    knight_attack,
    lands,
    overlay,
    pawn_attack,
    ray_attack,
    ray_moves,
    sight,
    slide,
    slider_attack,
    sweep,
    Placement,
};
use crate::piece::{bishop, king, knight, pawn, queen, rook, Kind, Piece};
use crate::game::{
    after_move,
    is_castling,
    is_en_passant,
    is_promotion,
    piece_placed,
    pieces_placed,
    refusal,
    rook_corner,
    rook_landing,
    rook_placed,
    square_behind,
};
use crate::util::{Color, Move, Position};

verus! {

/// How one side sees a square: empty, held by one of its own pieces, or
/// held by an enemy of some kind.
pub enum Cell {
    Empty,
    Friend,
    Foe(Kind),
}

/// How `color` sees the occupant of a square.
pub open spec fn seen_as(color: Color, occupant: Option<Piece>) -> Cell {
    match occupant {
        None => Cell::Empty,
        Some(q) => if q.color == color {
            Cell::Friend
        } else {
            Cell::Foe(q.kind)
        },
    }
}

/// How `color` sees the square `p` in the arrangement `view`.
pub open spec fn seen(view: Placement, color: Color, p: Position) -> Cell {
    seen_as(color, view(p))
}

/// Whether `p` lies strictly on the side of `origin` toward which
/// `(dx, dy)` points.
pub open spec fn ahead(origin: Position, p: Position, dx: int, dy: int) -> bool {
    &&& dx > 0 ==> p.file > origin.file
    &&& dx < 0 ==> p.file < origin.file
    &&& dx == 0 ==> p.file == origin.file
    &&& dy > 0 ==> p.rank > origin.rank
    &&& dy < 0 ==> p.rank < origin.rank
    &&& dy == 0 ==> p.rank == origin.rank
    &&& dx != 0 || dy != 0
}

/// Whether two arrangements look alike to `color` on every square that lies
/// from `origin` toward `(dx, dy)`.
pub open spec fn alike_ahead(
    v1: Placement,
    v2: Placement,
    color: Color,
    origin: Position,
    dx: int,
    dy: int,
) -> bool {
    forall|p: Position|
        p.wf() && ahead(origin, p, dx, dy) ==> #[trigger] seen(v1, color, p) == seen(v2, color, p)
}

/// Whether two arrangements look alike to `color` on every square but
/// `origin`.
pub open spec fn alike_around(v1: Placement, v2: Placement, color: Color, origin: Position) -> bool {
    forall|p: Position| p.wf() && p != origin ==> #[trigger] seen(v1, color, p) == seen(v2, color, p)
}

/// Two arrangements that look alike along a line show the same first piece
/// on it.
pub proof fn lemma_sight_alike(
    v1: Placement,
    v2: Placement,
    color: Color,
    origin: Position,
    cur: Position,
    dx: int,
    dy: int,
    steps: nat,
)
    requires
        cur.wf(),
        dx != 0 || dy != 0,
        cur == origin || ahead(origin, cur, dx, dy),
        alike_ahead(v1, v2, color, origin, dx, dy),
    ensures
        first_on_ray(v1, cur, dx, dy, steps) == first_on_ray(v2, cur, dx, dy, steps),
        first_on_ray(v1, cur, dx, dy, steps) matches Some(p) ==> p.wf() && ahead(origin, p, dx, dy),
    decreases steps,
{
    if steps > 0 {
        match cur.shifted(dx, dy) {
            None => {},
            Some(p) => {
                assert(p.wf() && ahead(origin, p, dx, dy));
                assert(seen(v1, color, p) == seen(v2, color, p));
                lemma_sight_alike(v1, v2, color, origin, p, dx, dy, (steps - 1) as nat);
            },
        }
    }
}

/// Two arrangements that look alike along a line are attacked alike along
/// it.
pub proof fn lemma_ray_attack_alike(
    v1: Placement,
    v2: Placement,
    color: Color,
    origin: Position,
    dx: int,
    dy: int,
    slider: Kind,
)
    requires
        origin.wf(),
        dx != 0 || dy != 0,
        alike_ahead(v1, v2, color, origin, dx, dy),
    ensures
        ray_attack(v1, color, origin, dx, dy, slider) == ray_attack(
            v2,
            color,
            origin,
            dx,
            dy,
            slider,
        ),
{
    lemma_sight_alike(v1, v2, color, origin, origin, dx, dy, 7);
    match sight(v1, origin, dx, dy) {
        Some(p) => {
            assert(seen(v1, color, p) == seen(v2, color, p));
        },
        None => {},
    }
}

/// The threat query looks at nothing but how the arrangement looks to
/// `color` around the square in question.
pub proof fn lemma_attacked_alike(v1: Placement, v2: Placement, color: Color, target: Position)
    requires
        target.wf(),
        alike_around(v1, v2, color, target),
    ensures
        attacked(v1, color, target) == attacked(v2, color, target),
{
    reveal(attacked);
    assert forall|dx: int, dy: int| dx != 0 || dy != 0 implies alike_ahead(
        v1,
        v2,
        color,
        target,
        dx,
        dy,
    ) by {
        assert forall|p: Position| p.wf() && ahead(target, p, dx, dy) implies #[trigger] seen(
            v1,
            color,
            p,
        ) == seen(v2, color, p) by {
            assert(p != target);
        }
    }
    assert forall|dx: int, dy: int, kind: Kind| dx != 0 || dy != 0 implies foe_at(
        v1,
        color,
        target,
        dx,
        dy,
        kind,
    ) == foe_at(v2, color, target, dx, dy, kind) by {
        match target.shifted(dx, dy) {
            Some(p) => {
                assert(p != target);
                assert(seen(v1, color, p) == seen(v2, color, p));
            },
            None => {},
        }
    }
    assert(knight_attack(v1, color, target) == knight_attack(v2, color, target));
    assert(pawn_attack(v1, color, target) == pawn_attack(v2, color, target));
    assert(king_attack(v1, color, target) == king_attack(v2, color, target));
    lemma_ray_attack_alike(v1, v2, color, target, 0, 1, Kind::Rook);
    lemma_ray_attack_alike(v1, v2, color, target, 1, 0, Kind::Rook);
    lemma_ray_attack_alike(v1, v2, color, target, 0, -1, Kind::Rook);
    lemma_ray_attack_alike(v1, v2, color, target, -1, 0, Kind::Rook);
    lemma_ray_attack_alike(v1, v2, color, target, 1, 1, Kind::Bishop);
    lemma_ray_attack_alike(v1, v2, color, target, 1, -1, Kind::Bishop);
    lemma_ray_attack_alike(v1, v2, color, target, -1, -1, Kind::Bishop);
    lemma_ray_attack_alike(v1, v2, color, target, -1, 1, Kind::Bishop);
}

/// What belongs to a concatenation belongs to one of its parts.
pub proof fn lemma_member_split<T>(a: Seq<T>, b: Seq<T>, x: T)
    ensures
        (a + b).contains(x) == (a.contains(x) || b.contains(x)),
{
    let s = a + b;
    if a.contains(x) {
        let i = choose|i: int| 0 <= i < a.len() && a[i] == x;
        assert(s[i] == x);
    }
    if b.contains(x) {
        let i = choose|i: int| 0 <= i < b.len() && b[i] == x;
        assert(s[a.len() + i] == x);
    }
    if s.contains(x) {
        let i = choose|i: int| 0 <= i < s.len() && s[i] == x;
        if i < a.len() {
            assert(a[i] == x);
        } else {
            assert(b[i - a.len()] == x);
        }
    }
}

/// What belongs to a sequence of one element is that element, and nothing
/// belongs to the empty sequence.
pub proof fn lemma_member_one<T>(y: T, x: T)
    ensures
        seq![y].contains(x) == (x == y),
        !Seq::<T>::empty().contains(x),
{
    let s = seq![y];
    if x == y {
        assert(s[0] == x);
    }
}

/// What a piece that is not a king needs of a destination: a square of the
/// board other than its own that holds none of its side's pieces, with the
/// king out of danger once the piece stands there.
pub open spec fn sound_step(board: Board, from: Position, color: Color, to: Position) -> bool {
    &&& to.wf()
    &&& to != from
    &&& lands(board, color, to)
    &&& king_safe(board, color, seq![from], seq![to])
}

/// A jump that is among the moves of a knight is a sound step to the
/// square of the jump.
pub proof fn lemma_jump_member(board: Board, from: Position, color: Color, dx: int, dy: int, to: Position)
    requires
        from.wf(),
        dx != 0 || dy != 0,
        knight::jump(board, from, color, dx, dy).contains(to),
    ensures
        sound_step(board, from, color, to),
        from.shifted(dx, dy) == Some(to),
{
    reveal(knight::jump);
    match from.shifted(dx, dy) {
        Some(p) => {
            lemma_member_one(p, to);
        },
        None => {
            lemma_member_one(from, to);
        },
    }
}

/// Whether two squares are a knight's jump apart.
pub open spec fn knight_leap(from: Position, to: Position) -> bool {
    let df = to.file - from.file;
    let dr = to.rank - from.rank;
    (df == 1 || df == -1) && (dr == 2 || dr == -2) || (df == 2 || df == -2) && (dr == 1 || dr
        == -1)
}

/// Whether two squares are next to each other.
pub open spec fn neighbors(from: Position, to: Position) -> bool {
    &&& -1 <= to.file - from.file <= 1
    &&& -1 <= to.rank - from.rank <= 1
    &&& to != from
}

/// Every destination of a knight is a sound step, a knight's jump away.
pub proof fn lemma_knight_destination(board: Board, from: Position, color: Color, to: Position)
    requires
        from.wf(),
        knight::moves(board, from, color).contains(to),
    ensures
        sound_step(board, from, color, to),
        knight_leap(from, to),
{
    let j1 = knight::jump(board, from, color, 2, -1);
    let j2 = knight::jump(board, from, color, 1, -2);
    let j3 = knight::jump(board, from, color, -1, -2);
    let j4 = knight::jump(board, from, color, -2, -1);
    let j5 = knight::jump(board, from, color, -2, 1);
    let j6 = knight::jump(board, from, color, -1, 2);
    let j7 = knight::jump(board, from, color, 1, 2);
    let j8 = knight::jump(board, from, color, 2, 1);
    lemma_member_one(from, to);
    lemma_member_split(j1 + j2 + j3 + j4 + j5 + j6 + j7, j8, to);
    lemma_member_split(j1 + j2 + j3 + j4 + j5 + j6, j7, to);
    lemma_member_split(j1 + j2 + j3 + j4 + j5, j6, to);
    lemma_member_split(j1 + j2 + j3 + j4, j5, to);
    lemma_member_split(j1 + j2 + j3, j4, to);
    lemma_member_split(j1 + j2, j3, to);
    lemma_member_split(j1, j2, to);
    if j1.contains(to) {
        lemma_jump_member(board, from, color, 2, -1, to);
    } else if j2.contains(to) {
        lemma_jump_member(board, from, color, 1, -2, to);
    } else if j3.contains(to) {
        lemma_jump_member(board, from, color, -1, -2, to);
    } else if j4.contains(to) {
        lemma_jump_member(board, from, color, -2, -1, to);
    } else if j5.contains(to) {
        lemma_jump_member(board, from, color, -2, 1, to);
    } else if j6.contains(to) {
        lemma_jump_member(board, from, color, -1, 2, to);
    } else if j7.contains(to) {
        lemma_jump_member(board, from, color, 1, 2, to);
    } else {
        lemma_jump_member(board, from, color, 2, 1, to);
    }
}

/// Every destination along a line is a sound step ahead on the line.
pub proof fn lemma_ray_member(
    board: Board,
    from: Position,
    color: Color,
    cur: Position,
    dx: int,
    dy: int,
    steps: nat,
    to: Position,
)
    requires
        cur.wf(),
        cur == from || ahead(from, cur, dx, dy),
        dx != 0 || dy != 0,
        ray_moves(board, from, color, cur, dx, dy, steps).contains(to),
    ensures
        sound_step(board, from, color, to),
        ahead(from, to, dx, dy),
    decreases steps,
{
    lemma_member_one(from, to);
    if steps > 0 {
        match cur.shifted(dx, dy) {
            None => {},
            Some(p) => {
                lemma_member_one(p, to);
                assert(ahead(from, p, dx, dy));
                match board.at(p) {
                    None => {
                        let rest = ray_moves(board, from, color, p, dx, dy, (steps - 1) as nat);
                        lemma_member_split(if_safe(board, from, color, p), rest, to);
                        if rest.contains(to) {
                            lemma_ray_member(board, from, color, p, dx, dy, (steps - 1) as nat, to);
                        }
                    },
                    Some(q) => {},
                }
            },
        }
    }
}

/// Whether no direction of the list is the null step.
pub open spec fn real_steps(deltas: Seq<(i8, i8)>) -> bool {
    forall|i: int| 0 <= i < deltas.len() ==> (#[trigger] deltas[i]).0 != 0 || deltas[i].1 != 0
}

proof fn lemma_sweep_member(
    board: Board,
    from: Position,
    color: Color,
    deltas: Seq<(i8, i8)>,
    to: Position,
)
    requires
        from.wf(),
        real_steps(deltas),
        sweep(board, from, color, deltas).contains(to),
    ensures
        sound_step(board, from, color, to),
    decreases deltas.len(),
{
    lemma_member_one(from, to);
    if deltas.len() > 0 {
        let d = deltas.last();
        let before = sweep(board, from, color, deltas.drop_last());
        let here = slide(board, from, color, d.0 as int, d.1 as int);
        lemma_member_split(before, here, to);
        if here.contains(to) {
            lemma_ray_member(board, from, color, from, d.0 as int, d.1 as int, 7, to);
        } else {
            assert forall|i: int| 0 <= i < deltas.drop_last().len() implies (
            #[trigger] deltas.drop_last()[i]).0 != 0 || deltas.drop_last()[i].1 != 0 by {
                assert(deltas.drop_last()[i] == deltas[i]);
            }
            lemma_sweep_member(board, from, color, deltas.drop_last(), to);
        }
    }
}

/// Every destination of a rook, a bishop or a queen is a sound step.
pub proof fn lemma_slider_destination(
    board: Board,
    from: Position,
    color: Color,
    kind: Kind,
    to: Position,
)
    requires
        from.wf(),
        match kind {
            Kind::Rook => rook::moves(board, from, color).contains(to),
            Kind::Bishop => bishop::moves(board, from, color).contains(to),
            Kind::Queen => queen::moves(board, from, color).contains(to),
            _ => false,
        },
    ensures
        sound_step(board, from, color, to),
{
    lemma_member_one(from, to);
    match kind {
        Kind::Rook => {
            lemma_sweep_member(board, from, color, rook::deltas(), to);
        },
        Kind::Bishop => {
            lemma_sweep_member(board, from, color, bishop::deltas(), to);
        },
        Kind::Queen => {
            lemma_sweep_member(board, from, color, queen::deltas(), to);
        },
        _ => {},
    }
}

/// What a pawn needs of a destination: a square one rank ahead on its own
/// or a neighboring file, or two ranks straight ahead, with the king out of
/// danger once the pawn stands there and, in an en passant capture, the
/// pawn beside it is gone.
pub open spec fn sound_pawn_step(board: Board, from: Position, color: Color, to: Position) -> bool {
    &&& to.wf()
    &&& to.file == from.file && to.rank - from.rank == 2 * color.forward() && board.at(
        Position { file: from.file, rank: (from.rank + color.forward()) as u8 },
    ) is None || -1 <= to.file - from.file <= 1 && to.rank - from.rank == color.forward()
    &&& to.file == from.file ==> king_safe(board, color, seq![from], seq![to]) && board.at(to)
        is None
    &&& to.file != from.file ==> king_safe(board, color, pawn::vacated(board, from, to), seq![to])
        && (board.en_passant_square == Some(to) || (board.at(to) matches Some(q) && q.color
        != color))
    &&& to.rank - from.rank == 2 * color.forward() ==> from.rank == pawn::starting_rank(color)
}

/// Every destination of a pawn is a sound pawn step.
pub proof fn lemma_pawn_destination(board: Board, from: Position, color: Color, to: Position)
    requires
        from.wf(),
        pawn::moves(board, from, color).contains(to),
    ensures
        sound_pawn_step(board, from, color, to),
{
    reveal(pawn::advance);
    reveal(pawn::double_advance);
    reveal(pawn::capture);
    let a = pawn::advance(board, from, color);
    let d = pawn::double_advance(board, from, color);
    let l = pawn::capture(board, from, color, -1);
    let r = pawn::capture(board, from, color, 1);
    lemma_member_one(from, to);
    lemma_member_split(a + d + l, r, to);
    lemma_member_split(a + d, l, to);
    lemma_member_split(a, d, to);
    if a.contains(to) {
        let p = from.shifted(0, color.forward())->Some_0;
        lemma_member_one(p, to);
    } else if d.contains(to) {
        let p = from.shifted(0, 2 * color.forward())->Some_0;
        lemma_member_one(p, to);
    } else if l.contains(to) {
        let p = from.shifted(-1, color.forward())->Some_0;
        lemma_member_one(p, to);
    } else {
        let p = from.shifted(1, color.forward())->Some_0;
        lemma_member_one(p, to);
    }
}

/// What a king needs of a step: a square of the board next to its own that
/// holds none of its side's pieces and is not attacked once the king has
/// left its square.
pub open spec fn sound_king_step(board: Board, from: Position, color: Color, to: Position) -> bool {
    &&& to.wf()
    &&& neighbors(from, to)
    &&& lands(board, color, to)
    &&& !king::exposed(board, from, color, to)
}

/// What a king needs of a castling move: the rule of castling allows it
/// toward the side of the destination.
pub open spec fn sound_castling(board: Board, from: Position, color: Color, to: Position) -> bool {
    ||| to == king::castling_target(color, true) && king::may_castle(board, from, color, true)
    ||| to == king::castling_target(color, false) && king::may_castle(board, from, color, false)
}

/// A step that is among the moves of a king is a sound step of the king.
pub proof fn lemma_king_step_member(
    board: Board,
    from: Position,
    color: Color,
    dx: int,
    dy: int,
    to: Position,
)
    requires
        from.wf(),
        dx != 0 || dy != 0,
        -1 <= dx <= 1,
        -1 <= dy <= 1,
        king::step(board, from, color, dx, dy).contains(to),
    ensures
        sound_king_step(board, from, color, to),
        from.shifted(dx, dy) == Some(to),
{
    reveal(king::step);
    match from.shifted(dx, dy) {
        Some(p) => {
            lemma_member_one(p, to);
        },
        None => {
            lemma_member_one(from, to);
        },
    }
}

/// Every destination of a king is a sound step or a sound castling move.
pub proof fn lemma_king_destination(board: Board, from: Position, color: Color, to: Position)
    requires
        from.wf(),
        king::moves(board, from, color).contains(to),
    ensures
        sound_king_step(board, from, color, to) || sound_castling(board, from, color, to),
{
    reveal(king::castle);
    let s1 = king::step(board, from, color, 1, 0);
    let s2 = king::step(board, from, color, 1, -1);
    let s3 = king::step(board, from, color, 0, -1);
    let s4 = king::step(board, from, color, -1, -1);
    let s5 = king::step(board, from, color, -1, 0);
    let s6 = king::step(board, from, color, -1, 1);
    let s7 = king::step(board, from, color, 0, 1);
    let s8 = king::step(board, from, color, 1, 1);
    let q = king::castle(board, from, color, false);
    let k = king::castle(board, from, color, true);
    lemma_member_one(from, to);
    lemma_member_split(s1 + s2 + s3 + s4 + s5 + s6 + s7 + s8 + q, k, to);
    lemma_member_split(s1 + s2 + s3 + s4 + s5 + s6 + s7 + s8, q, to);
    lemma_member_split(s1 + s2 + s3 + s4 + s5 + s6 + s7, s8, to);
    lemma_member_split(s1 + s2 + s3 + s4 + s5 + s6, s7, to);
    lemma_member_split(s1 + s2 + s3 + s4 + s5, s6, to);
    lemma_member_split(s1 + s2 + s3 + s4, s5, to);
    lemma_member_split(s1 + s2 + s3, s4, to);
    lemma_member_split(s1 + s2, s3, to);
    lemma_member_split(s1, s2, to);
    let r = king::home_rank(color);
    if s1.contains(to) {
        lemma_king_step_member(board, from, color, 1, 0, to);
    } else if s2.contains(to) {
        lemma_king_step_member(board, from, color, 1, -1, to);
    } else if s3.contains(to) {
        lemma_king_step_member(board, from, color, 0, -1, to);
    } else if s4.contains(to) {
        lemma_king_step_member(board, from, color, -1, -1, to);
    } else if s5.contains(to) {
        lemma_king_step_member(board, from, color, -1, 0, to);
    } else if s6.contains(to) {
        lemma_king_step_member(board, from, color, -1, 1, to);
    } else if s7.contains(to) {
        lemma_king_step_member(board, from, color, 0, 1, to);
    } else if s8.contains(to) {
        lemma_king_step_member(board, from, color, 1, 1, to);
    } else if q.contains(to) {
        lemma_member_one(king::castling_target(color, false), to);
    } else {
        lemma_member_one(king::castling_target(color, true), to);
    }
}

/// What a square holds once the occupant of one square has been replaced.
pub proof fn lemma_with_piece_at(b: Board, p: Position, v: Option<Piece>, q: Position)
    requires
        p.wf(),
        q.wf(),
    ensures
        b.with_piece(p, v).at(q) == (if q == p {
            v
        } else {
            b.at(q)
        }),
{
}

/// The king of a color, as a piece.
pub open spec fn king_of(color: Color) -> Piece {
    Piece { color, kind: Kind::King }
}

/// Whether at most one square holds a king of `color`.
pub open spec fn single_king(board: Board, color: Color) -> bool {
    forall|p: Position, q: Position|
        p.wf() && q.wf() && #[trigger] board.at(p) == Some(king_of(color)) && #[trigger] board.at(
            q,
        ) == Some(king_of(color)) ==> p == q
}

proof fn lemma_find_from(board: Board, piece: Piece, idx: int)
    requires
        0 <= idx <= 64,
    ensures
        match board.find_from(piece, idx) {
            Some(k) => k.wf() && board.at(k) == Some(piece),
            None => forall|p: Position|
                p.wf() && p.rank * 8 + p.file >= idx ==> #[trigger] board.at(p) != Some(piece),
        },
    decreases 64 - idx,
{
    if idx < 64 {
        lemma_find_from(board, piece, idx + 1);
        if board.find_from(piece, idx) is None {
            assert forall|p: Position| p.wf() && p.rank * 8 + p.file >= idx implies #[trigger] board.at(
                p,
            ) != Some(piece) by {
                if p.rank * 8 + p.file == idx {
                    assert(Board::square(idx) == p);
                }
            }
        }
    }
}

/// The king square of a board holds the king, and a board without a king
/// square holds no king.
pub proof fn lemma_king_square(board: Board, color: Color)
    ensures
        match board.king_square(color) {
            Some(k) => k.wf() && board.at(k) == Some(king_of(color)),
            None => forall|p: Position|
                p.wf() ==> #[trigger] board.at(p) != Some(king_of(color)),
        },
{
    lemma_find_from(board, king_of(color), 0);
}

/// Whether the king of `color` is attacked on the board as it stands.
pub open spec fn in_check(board: Board, color: Color) -> bool {
    match board.king_square(color) {
        Some(k) => attacked(board.placement(), color, k),
        None => false,
    }
}

/// Being out of danger with nothing vacated and nothing blocked is not
/// being in check.
pub proof fn lemma_king_safe_is_no_check(board: Board, color: Color)
    ensures
        king_safe(board, color, seq![], seq![]) == !in_check(board, color),
{
    assert(overlay(board.placement(), seq![], seq![], color) =~= board.placement());
}

/// What a square holds after a move that is not a castling move: nothing
/// if the piece has left it or a pawn was captured on it en passant, the
/// moved or promoted piece on the destination, and what it held before
/// anywhere else.
pub open spec fn occupant_after(board: Board, mv: Move, promotion: Kind, p: Position) -> Option<
    Piece,
> {
    if is_en_passant(board, mv) && square_behind(board, mv) == Some(p) {
        None
    } else if p == mv.from {
        None
    } else if p == mv.to {
        if is_promotion(board, mv) {
            Some(Piece { color: board.next_to_move, kind: promotion })
        } else {
            board.at(mv.from)
        }
    } else {
        board.at(p)
    }
}

/// The occupants after a move that is not a castling move.
pub proof fn lemma_occupant_after(board: Board, mv: Move, promotion: Kind, p: Position)
    requires
        mv.wf(),
        mv.to != mv.from,
        p.wf(),
        !is_castling(board, mv),
    ensures
        after_move(board, mv, promotion).at(p) == occupant_after(board, mv, promotion, p),
{
    let lifted1 = board.with_piece(mv.to, board.at(mv.from));
    let lifted = lifted1.with_piece(mv.from, None);
    let placed = piece_placed(board, mv, promotion);
    let all = pieces_placed(board, mv, promotion);
    lemma_with_piece_at(board, mv.to, board.at(mv.from), p);
    lemma_with_piece_at(lifted1, mv.from, None, p);
    lemma_with_piece_at(
        lifted,
        mv.to,
        Some(Piece { color: board.next_to_move, kind: promotion }),
        p,
    );
    assert(rook_placed(board, mv, promotion) == placed);
    match square_behind(board, mv) {
        Some(t) => {
            lemma_with_piece_at(placed, t, None, p);
        },
        None => {},
    }
    assert(after_move(board, mv, promotion).at(p) == all.at(p));
}

/// After a move of a piece that is not a king, the king of the mover is
/// where it was or gone, and it is not in check.
proof fn lemma_other_piece_leaves_no_check(
    board: Board,
    mv: Move,
    promotion: Kind,
    cleared: Seq<Position>,
)
    requires
        mv.wf(),
        board.wf(),
        board.at(mv.from) matches Some(piece) && piece.color == board.next_to_move && piece.kind
            != Kind::King,
        promotion != Kind::King,
        single_king(board, board.next_to_move),
        mv.to != mv.from,
        king_safe(board, board.next_to_move, cleared, seq![mv.to]),
        forall|p: Position|
            p.wf() ==> seen_as(
                board.next_to_move,
                #[trigger] overlay(board.placement(), cleared, seq![mv.to], board.next_to_move)(p),
            ) == seen_as(board.next_to_move, occupant_after(board, mv, promotion, p)),
    ensures
        !in_check(after_move(board, mv, promotion), board.next_to_move),
{
    let c = board.next_to_move;
    let after = after_move(board, mv, promotion);
    lemma_king_square(board, c);
    lemma_king_square(after, c);
    let view = overlay(board.placement(), cleared, seq![mv.to], c);
    match after.king_square(c) {
        Some(k2) => {
            lemma_occupant_after(board, mv, promotion, k2);
            assert(board.at(k2) == Some(king_of(c)));
            assert(board.king_square(c) == Some(k2));
            assert forall|p: Position| p.wf() && p != k2 implies #[trigger] seen(view, c, p)
                == seen(after.placement(), c, p) by {
                lemma_occupant_after(board, mv, promotion, p);
                assert(seen_as(c, view(p)) == seen_as(c, occupant_after(board, mv, promotion, p)));
            }
            lemma_attacked_alike(view, after.placement(), c, k2);
        },
        None => {},
    }
}

/// The view of a board with the piece lifted off `from` and a piece of
/// `color` standing on `to` looks like the board after that piece has
/// moved from `from` to `to`.
pub proof fn lemma_plain_move_looks_alike(board: Board, mv: Move, promotion: Kind, p: Position)
    requires
        mv.wf(),
        p.wf(),
        mv.to != mv.from,
        board.at(mv.from) matches Some(piece) && piece.color == board.next_to_move,
        !is_en_passant(board, mv) || square_behind(board, mv) == Some(mv.from) || (square_behind(
            board,
            mv,
        ) matches Some(t) && board.at(t) is None),
    ensures
        seen_as(
            board.next_to_move,
            overlay(board.placement(), seq![mv.from], seq![mv.to], board.next_to_move)(p),
        ) == seen_as(board.next_to_move, occupant_after(board, mv, promotion, p)),
{
    lemma_member_one(mv.from, p);
    lemma_member_one(mv.to, p);
}

/// The view of a board with the capturing pawn and the pawn beside it
/// lifted off looks like the board after the en passant capture.
pub proof fn lemma_en_passant_looks_alike(board: Board, mv: Move, promotion: Kind, p: Position)
    requires
        mv.wf(),
        p.wf(),
        board.at(mv.from) matches Some(piece) && piece.color == board.next_to_move && piece.kind
            == Kind::Pawn,
        mv.to.rank - mv.from.rank == board.next_to_move.forward(),
    ensures
        seen_as(
            board.next_to_move,
            overlay(
                board.placement(),
                pawn::vacated(board, mv.from, mv.to),
                seq![mv.to],
                board.next_to_move,
            )(p),
        ) == seen_as(board.next_to_move, occupant_after(board, mv, promotion, p)),
{
    let beside = Position { file: mv.to.file, rank: mv.from.rank };
    lemma_member_one(mv.from, p);
    lemma_member_one(mv.to, p);
    lemma_member_one(beside, p);
    lemma_member_split(seq![mv.from], seq![beside], p);
    assert(seq![mv.from, beside] =~= seq![mv.from] + seq![beside]);
    assert(square_behind(board, mv) == Some(beside));
}

/// After a step of the king, the king stands on its destination and is
/// not in check.
proof fn lemma_king_step_leaves_no_check(board: Board, mv: Move, promotion: Kind)
    requires
        mv.wf(),
        board.wf(),
        board.at(mv.from) == Some(king_of(board.next_to_move)),
        single_king(board, board.next_to_move),
        sound_king_step(board, mv.from, board.next_to_move, mv.to),
    ensures
        !in_check(after_move(board, mv, promotion), board.next_to_move),
{
    let c = board.next_to_move;
    let after = after_move(board, mv, promotion);
    lemma_king_square(after, c);
    let view = overlay(board.placement(), seq![mv.from], seq![], c);
    lemma_occupant_after(board, mv, promotion, mv.to);
    match after.king_square(c) {
        Some(k2) => {
            lemma_occupant_after(board, mv, promotion, k2);
            assert(k2 == mv.to);
            assert forall|p: Position| p.wf() && p != k2 implies #[trigger] seen(view, c, p)
                == seen(after.placement(), c, p) by {
                lemma_occupant_after(board, mv, promotion, p);
                lemma_member_one(mv.from, p);
            }
            lemma_attacked_alike(view, after.placement(), c, k2);
        },
        None => {},
    }
}

/// What a square holds after a castling move: the king on its
/// destination, the rook on the square the king has crossed, nothing where
/// they stood, and what it held before anywhere else.
pub proof fn lemma_occupant_after_castling(board: Board, mv: Move, promotion: Kind, p: Position)
    requires
        mv.wf(),
        p.wf(),
        board.at(mv.from) == Some(king_of(board.next_to_move)),
        mv.from.file == 4,
        mv.to.rank == mv.from.rank,
        mv.to.file == 6 || mv.to.file == 2,
    ensures
        after_move(board, mv, promotion).at(p) == (if p == rook_corner(mv) {
            None
        } else if p == rook_landing(mv) {
            board.at(rook_corner(mv))
        } else if p == mv.to {
            board.at(mv.from)
        } else if p == mv.from {
            None
        } else {
            board.at(p)
        }),
{
    let lifted1 = board.with_piece(mv.to, board.at(mv.from));
    let lifted = lifted1.with_piece(mv.from, None);
    let placed = piece_placed(board, mv, promotion);
    assert(placed == lifted);
    let rooked1 = placed.with_piece(rook_landing(mv), placed.at(rook_corner(mv)));
    let rooked = rooked1.with_piece(rook_corner(mv), None);
    assert(is_castling(board, mv));
    assert(rook_placed(board, mv, promotion) == rooked);
    assert(pieces_placed(board, mv, promotion) == rooked);
    lemma_with_piece_at(board, mv.to, board.at(mv.from), p);
    lemma_with_piece_at(lifted1, mv.from, None, p);
    lemma_with_piece_at(board, mv.to, board.at(mv.from), rook_corner(mv));
    lemma_with_piece_at(lifted1, mv.from, None, rook_corner(mv));
    lemma_with_piece_at(placed, rook_landing(mv), placed.at(rook_corner(mv)), p);
    lemma_with_piece_at(rooked1, rook_corner(mv), None, p);
    assert(after_move(board, mv, promotion).at(p) == rooked.at(p));
}

/// A line that leaves the home rank looks the same before and after a
/// castling move, so it is attacked alike.
proof fn lemma_castled_ray_alike(
    board: Board,
    mv: Move,
    promotion: Kind,
    dx: int,
    dy: int,
    slider: Kind,
)
    requires
        mv.wf(),
        board.at(mv.from) == Some(king_of(board.next_to_move)),
        mv.from.file == 4,
        mv.to.rank == mv.from.rank,
        mv.to.file == 6 || mv.to.file == 2,
        dy != 0,
    ensures
        ray_attack(
            after_move(board, mv, promotion).placement(),
            board.next_to_move,
            mv.to,
            dx,
            dy,
            slider,
        ) == ray_attack(
            overlay(board.placement(), seq![mv.from], seq![], board.next_to_move),
            board.next_to_move,
            mv.to,
            dx,
            dy,
            slider,
        ),
{
    let c = board.next_to_move;
    let after = after_move(board, mv, promotion).placement();
    let view = overlay(board.placement(), seq![mv.from], seq![], c);
    assert forall|p: Position| p.wf() && ahead(mv.to, p, dx, dy) implies #[trigger] seen(
        after,
        c,
        p,
    ) == seen(view, c, p) by {
        lemma_occupant_after_castling(board, mv, promotion, p);
        lemma_member_one(mv.from, p);
    }
    lemma_ray_attack_alike(after, view, c, mv.to, dx, dy, slider);
}

/// A square off the home rank looks the same before and after a castling
/// move, so it holds an enemy of a kind alike.
proof fn lemma_castled_foe_alike(
    board: Board,
    mv: Move,
    promotion: Kind,
    dx: int,
    dy: int,
    kind: Kind,
)
    requires
        mv.wf(),
        board.at(mv.from) == Some(king_of(board.next_to_move)),
        mv.from.file == 4,
        mv.to.rank == mv.from.rank,
        mv.to.file == 6 || mv.to.file == 2,
        dy != 0,
    ensures
        foe_at(
            after_move(board, mv, promotion).placement(),
            board.next_to_move,
            mv.to,
            dx,
            dy,
            kind,
        ) == foe_at(
            overlay(board.placement(), seq![mv.from], seq![], board.next_to_move),
            board.next_to_move,
            mv.to,
            dx,
            dy,
            kind,
        ),
{
    match mv.to.shifted(dx, dy) {
        Some(p) => {
            lemma_occupant_after_castling(board, mv, promotion, p);
            lemma_member_one(mv.from, p);
        },
        None => {},
    }
}

/// After a castling move, the king stands on its destination and is not in
/// check.
proof fn lemma_castling_leaves_no_check(board: Board, mv: Move, promotion: Kind)
    requires
        mv.wf(),
        board.wf(),
        board.at(mv.from) == Some(king_of(board.next_to_move)),
        single_king(board, board.next_to_move),
        sound_castling(board, mv.from, board.next_to_move, mv.to),
    ensures
        !in_check(after_move(board, mv, promotion), board.next_to_move),
{
    let c = board.next_to_move;
    let r = king::home_rank(c);
    let after = after_move(board, mv, promotion);
    let a = after.placement();
    let view = overlay(board.placement(), seq![mv.from], seq![], c);
    let to = mv.to;
    lemma_king_square(after, c);
    assert forall|p: Position| p.wf() && #[trigger] after.at(p) == Some(king_of(c)) implies p
        == to by {
        lemma_occupant_after_castling(board, mv, promotion, p);
    }
    assert(!attacked(view, c, to));
    match after.king_square(c) {
        Some(k2) => {
            assert(k2 == to);
            reveal(attacked);
            // Off the home rank nothing has changed.
            lemma_castled_foe_alike(board, mv, promotion, 2, -1, Kind::Knight);
            lemma_castled_foe_alike(board, mv, promotion, 1, -2, Kind::Knight);
            lemma_castled_foe_alike(board, mv, promotion, -1, -2, Kind::Knight);
            lemma_castled_foe_alike(board, mv, promotion, -2, -1, Kind::Knight);
            lemma_castled_foe_alike(board, mv, promotion, -2, 1, Kind::Knight);
            lemma_castled_foe_alike(board, mv, promotion, -1, 2, Kind::Knight);
            lemma_castled_foe_alike(board, mv, promotion, 1, 2, Kind::Knight);
            lemma_castled_foe_alike(board, mv, promotion, 2, 1, Kind::Knight);
            lemma_castled_foe_alike(board, mv, promotion, -1, c.forward(), Kind::Pawn);
            lemma_castled_foe_alike(board, mv, promotion, 1, c.forward(), Kind::Pawn);
            lemma_castled_foe_alike(board, mv, promotion, 1, -1, Kind::King);
            lemma_castled_foe_alike(board, mv, promotion, 0, -1, Kind::King);
            lemma_castled_foe_alike(board, mv, promotion, -1, -1, Kind::King);
            lemma_castled_foe_alike(board, mv, promotion, -1, 1, Kind::King);
            lemma_castled_foe_alike(board, mv, promotion, 0, 1, Kind::King);
            lemma_castled_foe_alike(board, mv, promotion, 1, 1, Kind::King);
            lemma_castled_ray_alike(board, mv, promotion, 0, 1, Kind::Rook);
            lemma_castled_ray_alike(board, mv, promotion, 0, -1, Kind::Rook);
            lemma_castled_ray_alike(board, mv, promotion, 1, 1, Kind::Bishop);
            lemma_castled_ray_alike(board, mv, promotion, 1, -1, Kind::Bishop);
            lemma_castled_ray_alike(board, mv, promotion, -1, -1, Kind::Bishop);
            lemma_castled_ray_alike(board, mv, promotion, -1, 1, Kind::Bishop);
            // On the home rank the king stands between its rook and the edge
            // or the empty squares toward the corner.
            let sq = |file: u8| Position { file, rank: r };
            lemma_occupant_after_castling(board, mv, promotion, sq(0));
            lemma_occupant_after_castling(board, mv, promotion, sq(1));
            lemma_occupant_after_castling(board, mv, promotion, sq(3));
            lemma_occupant_after_castling(board, mv, promotion, sq(5));
            lemma_occupant_after_castling(board, mv, promotion, sq(7));
            assert(!foe_at(a, c, to, 1, 0, Kind::King));
            assert(!foe_at(a, c, to, -1, 0, Kind::King));
            assert(!ray_attack(a, c, to, 1, 0, Kind::Rook)) by {
                reveal_with_fuel(first_on_ray, 4);
            }
            assert(!ray_attack(a, c, to, -1, 0, Kind::Rook)) by {
                reveal_with_fuel(first_on_ray, 4);
            }
            assert(!knight_attack(a, c, to));
            assert(!pawn_attack(a, c, to));
            assert(!king_attack(a, c, to));
            assert(!slider_attack(a, c, to));
        },
        None => {},
    }
}

/// Legal moves are legal: after any move that the game accepts, the king
/// of the side that has moved is not in check, provided that side had at
/// most one king and no pawn was promoted to a king.
pub proof fn lemma_legal_move_leaves_no_check(board: Board, mv: Move, promotion: Kind)
    requires
        board.wf(),
        mv.wf(),
        refusal(board, mv) is None,
        single_king(board, board.next_to_move),
        promotion != Kind::King,
    ensures
        !in_check(after_move(board, mv, promotion), board.next_to_move),
        king_safe(after_move(board, mv, promotion), board.next_to_move, seq![], seq![]),
{
    let c = board.next_to_move;
    let piece = board.at(mv.from)->Some_0;
    let from = mv.from;
    let to = mv.to;
    lemma_king_safe_is_no_check(after_move(board, mv, promotion), c);
    match piece.kind {
        Kind::Knight => {
            lemma_knight_destination(board, from, c, to);
            assert forall|p: Position| p.wf() implies seen_as(
                c,
                #[trigger] overlay(board.placement(), seq![from], seq![to], c)(p),
            ) == seen_as(c, occupant_after(board, mv, promotion, p)) by {
                lemma_plain_move_looks_alike(board, mv, promotion, p);
            }
            lemma_other_piece_leaves_no_check(board, mv, promotion, seq![from]);
        },
        Kind::Rook | Kind::Bishop | Kind::Queen => {
            lemma_slider_destination(board, from, c, piece.kind, to);
            assert forall|p: Position| p.wf() implies seen_as(
                c,
                #[trigger] overlay(board.placement(), seq![from], seq![to], c)(p),
            ) == seen_as(c, occupant_after(board, mv, promotion, p)) by {
                lemma_plain_move_looks_alike(board, mv, promotion, p);
            }
            lemma_other_piece_leaves_no_check(board, mv, promotion, seq![from]);
        },
        Kind::Pawn => {
            lemma_pawn_destination(board, from, c, to);
            if to.file == from.file {
                assert forall|p: Position| p.wf() implies seen_as(
                    c,
                    #[trigger] overlay(board.placement(), seq![from], seq![to], c)(p),
                ) == seen_as(c, occupant_after(board, mv, promotion, p)) by {
                    lemma_plain_move_looks_alike(board, mv, promotion, p);
                }
                lemma_other_piece_leaves_no_check(board, mv, promotion, seq![from]);
            } else {
                let cleared = pawn::vacated(board, from, to);
                assert forall|p: Position| p.wf() implies seen_as(
                    c,
                    #[trigger] overlay(board.placement(), cleared, seq![to], c)(p),
                ) == seen_as(c, occupant_after(board, mv, promotion, p)) by {
                    lemma_en_passant_looks_alike(board, mv, promotion, p);
                }
                lemma_other_piece_leaves_no_check(board, mv, promotion, cleared);
            }
        },
        Kind::King => {
            lemma_king_destination(board, from, c, to);
            if sound_king_step(board, from, c, to) {
                lemma_king_step_leaves_no_check(board, mv, promotion);
            } else {
                lemma_castling_leaves_no_check(board, mv, promotion);
            }
        },
    }
}

} // verus!
