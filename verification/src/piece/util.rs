//! Lines of sight and the threat query that move generation is built on.

use vstd::prelude::*;
use crate::board::Board;
use crate::piece::{Kind, Piece};
use crate::util::{Color, Position};

verus! {

/// An arrangement of pieces: the occupant of every square.
pub type Placement = spec_fn(Position) -> Option<Piece>;

impl Board {
    /// The arrangement of the pieces on the board.
    pub open spec fn placement(self) -> Placement {
        |p: Position| self.at(p)
    }
}

/// An arrangement seen through two override lists: the squares of `cleared`
/// count as empty, and those of `blocked` (unless cleared) as held by a
/// piece of `color` that attacks nothing.
pub open spec fn overlay(
    base: Placement,
    cleared: Seq<Position>,
    blocked: Seq<Position>,
    color: Color,
) -> Placement {
    |p: Position|
        if cleared.contains(p) {
            None
        } else if blocked.contains(p) {
            Some(Piece { color, kind: Kind::Pawn })
        } else {
            base(p)
        }
}

/// The first occupied square met when walking from `from` in steps of
/// `(dx, dy)`, at most `steps` steps and never off the board.
pub open spec fn first_on_ray(view: Placement, from: Position, dx: int, dy: int, steps: nat) -> Option<
    Position,
>
    decreases steps,
{
    if steps == 0 {
        None
    } else {
        match from.shifted(dx, dy) {
            None => None,
            Some(p) => if view(p) is Some {
                Some(p)
            } else {
                first_on_ray(view, p, dx, dy, (steps - 1) as nat)
            },
        }
    }
}

/// The first occupied square in sight of `from` in direction `(dx, dy)`.
pub open spec fn sight(view: Placement, from: Position, dx: int, dy: int) -> Option<Position> {
    first_on_ray(view, from, dx, dy, 7)
}

/// Whether the square `(dx, dy)` away from `origin` holds an enemy of
/// `color` of the given kind.
pub open spec fn foe_at(view: Placement, color: Color, origin: Position, dx: int, dy: int, kind: Kind) -> bool {
    match origin.shifted(dx, dy) {
        Some(p) => view(p) == Some(Piece { color: color.flip(), kind }),
        None => false,
    }
}

/// Whether the first piece in sight of `origin` in direction `(dx, dy)` is
/// an enemy of `color` that slides that way: a queen or a `slider`.
pub open spec fn ray_attack(
    view: Placement,
    color: Color,
    origin: Position,
    dx: int,
    dy: int,
    slider: Kind,
) -> bool {
    match sight(view, origin, dx, dy) {
        Some(p) => match view(p) {
            Some(piece) => piece.color != color && (piece.kind == slider || piece.kind
                == Kind::Queen),
            None => false,
        },
        None => false,
    }
}

/// Whether an enemy knight stands a knight's jump away from `target`.
pub open spec fn knight_attack(view: Placement, color: Color, target: Position) -> bool {
    ||| foe_at(view, color, target, 2, -1, Kind::Knight)
    ||| foe_at(view, color, target, 1, -2, Kind::Knight)
    ||| foe_at(view, color, target, -1, -2, Kind::Knight)
    ||| foe_at(view, color, target, -2, -1, Kind::Knight)
    ||| foe_at(view, color, target, -2, 1, Kind::Knight)
    ||| foe_at(view, color, target, -1, 2, Kind::Knight)
    ||| foe_at(view, color, target, 1, 2, Kind::Knight)
    ||| foe_at(view, color, target, 2, 1, Kind::Knight)
}

/// Whether an enemy rook, bishop or queen has `target` in sight along one
/// of its lines.
pub open spec fn slider_attack(view: Placement, color: Color, target: Position) -> bool {
    ||| ray_attack(view, color, target, 0, 1, Kind::Rook)
    ||| ray_attack(view, color, target, 1, 0, Kind::Rook)
    ||| ray_attack(view, color, target, 0, -1, Kind::Rook)
    ||| ray_attack(view, color, target, -1, 0, Kind::Rook)
    ||| ray_attack(view, color, target, 1, 1, Kind::Bishop)
    ||| ray_attack(view, color, target, 1, -1, Kind::Bishop)
    ||| ray_attack(view, color, target, -1, -1, Kind::Bishop)
    ||| ray_attack(view, color, target, -1, 1, Kind::Bishop)
}

/// An enemy pawn attacks diagonally toward its own forward direction, so it
/// stands one rank ahead of `target` as `color` sees it.
pub open spec fn pawn_attack(view: Placement, color: Color, target: Position) -> bool {
    ||| foe_at(view, color, target, -1, color.forward(), Kind::Pawn)
    ||| foe_at(view, color, target, 1, color.forward(), Kind::Pawn)
}

/// Whether the enemy king stands next to `target`.
pub open spec fn king_attack(view: Placement, color: Color, target: Position) -> bool {
    ||| foe_at(view, color, target, 1, 0, Kind::King)
    ||| foe_at(view, color, target, 1, -1, Kind::King)
    ||| foe_at(view, color, target, 0, -1, Kind::King)
    ||| foe_at(view, color, target, -1, -1, Kind::King)
    ||| foe_at(view, color, target, -1, 0, Kind::King)
    ||| foe_at(view, color, target, -1, 1, Kind::King)
    ||| foe_at(view, color, target, 0, 1, Kind::King)
    ||| foe_at(view, color, target, 1, 1, Kind::King)
}

/// Whether a piece of `color` standing on `target` could be captured in the
/// arrangement `view`: an enemy knight a knight's jump away, an enemy rook,
/// bishop or queen in sight along its line, an enemy pawn on a forward
/// diagonal, or the enemy king next to it. The occupant of `target` itself
/// plays no part.
#[verifier::opaque]
pub open spec fn attacked(view: Placement, color: Color, target: Position) -> bool {
    ||| knight_attack(view, color, target)
    ||| slider_attack(view, color, target)
    ||| pawn_attack(view, color, target)
    ||| king_attack(view, color, target)
}

/// Whether the king of `color` is out of danger on the board as it would
/// look with `cleared` vacated and `blocked` held by pieces of `color`. A
/// side without a king is never in danger.
pub open spec fn king_safe(
    board: Board,
    color: Color,
    cleared: Seq<Position>,
    blocked: Seq<Position>,
) -> bool {
    match board.king_square(color) {
        Some(k) => !attacked(overlay(board.placement(), cleared, blocked, color), color, k),
        None => true,
    }
}

/// Whether a piece of `color` may land on `to`: the square is empty or
/// holds an enemy.
pub open spec fn lands(board: Board, color: Color, to: Position) -> bool {
    match board.at(to) {
        Some(p) => p.color != color,
        None => true,
    }
}

/// Whether the piece on `at` shields the king of `color` along `(dx, dy)`:
/// looking that way the first piece in sight is that king, and looking the
/// opposite way the first piece in sight is an enemy that slides along the
/// line (a queen, a rook on a rank or file, a bishop on a diagonal).
pub open spec fn shields(view: Placement, color: Color, at: Position, dx: int, dy: int) -> bool {
    &&& match sight(view, at, dx, dy) {
        Some(k) => view(k) == Some(Piece { color, kind: Kind::King }),
        None => false,
    }
    &&& ray_attack(
        view,
        color,
        at,
        -dx,
        -dy,
        if dx == 0 || dy == 0 {
            Kind::Rook
        } else {
            Kind::Bishop
        },
    )
}

/// The direction from `at` toward the king of `color` that the piece on
/// `at` shields from an enemy slider, if there is one: the axis of an
/// absolute pin.
pub open spec fn pin_axis(view: Placement, color: Color, at: Position) -> Option<(int, int)> {
    if shields(view, color, at, 1, 0) {
        Some((1, 0))
    } else if shields(view, color, at, 1, -1) {
        Some((1, -1))
    } else if shields(view, color, at, 0, -1) {
        Some((0, -1))
    } else if shields(view, color, at, -1, -1) {
        Some((-1, -1))
    } else if shields(view, color, at, -1, 0) {
        Some((-1, 0))
    } else if shields(view, color, at, -1, 1) {
        Some((-1, 1))
    } else if shields(view, color, at, 0, 1) {
        Some((0, 1))
    } else if shields(view, color, at, 1, 1) {
        Some((1, 1))
    } else {
        None
    }
}

/// Whether a displacement of `(dx, dy)` stays on the line through the
/// origin with the compass direction `axis`.
pub open spec fn along(dx: int, dy: int, axis: (int, int)) -> bool {
    if axis.0 == 0 {
        dx == 0
    } else if axis.1 == 0 {
        dy == 0
    } else if axis.0 == axis.1 {
        dx == dy
    } else {
        dx == -dy
    }
}

/// Whether a pin, if any, lets the piece move by `(dx, dy)`.
pub open spec fn pin_allows(pin: Option<(int, int)>, dx: int, dy: int) -> bool {
    match pin {
        Some(axis) => along(dx, dy, axis),
        None => true,
    }
}

/// The square `p` as a legal destination of the piece of `color` on `from`
/// if the king of `color` stays out of danger, else nothing.
pub open spec fn if_safe(board: Board, from: Position, color: Color, p: Position) -> Seq<Position> {
    if king_safe(board, color, seq![from], seq![p]) {
        seq![p]
    } else {
        seq![]
    }
}

/// The legal destinations of a sliding piece of `color` that stands on
/// `from`, walking on from `cur` in steps of `(dx, dy)`: every empty square
/// up to the first piece, and that piece's square if it is an enemy, each
/// only if the king of `color` stays out of danger.
pub open spec fn ray_moves(
    board: Board,
    from: Position,
    color: Color,
    cur: Position,
    dx: int,
    dy: int,
    steps: nat,
) -> Seq<Position>
    decreases steps,
{
    if steps == 0 {
        seq![]
    } else {
        match cur.shifted(dx, dy) {
            None => seq![],
            Some(p) => match board.at(p) {
                None => if_safe(board, from, color, p) + ray_moves(
                    board,
                    from,
                    color,
                    p,
                    dx,
                    dy,
                    (steps - 1) as nat,
                ),
                Some(q) => if q.color != color {
                    if_safe(board, from, color, p)
                } else {
                    seq![]
                },
            },
        }
    }
}

/// The legal destinations of a sliding piece in one direction; none if a
/// pin forbids the direction.
pub open spec fn slide(board: Board, from: Position, color: Color, dx: int, dy: int) -> Seq<Position> {
    if pin_allows(pin_axis(board.placement(), color, from), dx, dy) {
        ray_moves(board, from, color, from, dx, dy, 7)
    } else {
        seq![]
    }
}

/// The legal destinations of a sliding piece over a list of directions, in
/// the order of the list.
pub open spec fn sweep(board: Board, from: Position, color: Color, deltas: Seq<(i8, i8)>) -> Seq<
    Position,
>
    decreases deltas.len(),
{
    if deltas.len() == 0 {
        seq![]
    } else {
        sweep(board, from, color, deltas.drop_last()) + slide(
            board,
            from,
            color,
            deltas.last().0 as int,
            deltas.last().1 as int,
        )
    }
}

/// The legal destinations of a sliding piece of `color` on `from` that
/// moves in the directions `deltas`. With two checks recorded there are
/// none.
pub open spec fn sliding_moves(board: Board, from: Position, color: Color, deltas: Seq<(i8, i8)>) -> Seq<
    Position,
> {
    if board.checking_pieces > 1 {
        seq![]
    } else {
        sweep(board, from, color, deltas)
    }
}

/// Whether the first piece in sight of `at` along `(dx, dy)` is the enemy
/// king of `color`.
pub open spec fn ray_check(view: Placement, color: Color, at: Position, dx: int, dy: int) -> bool {
    match sight(view, at, dx, dy) {
        Some(p) => view(p) == Some(Piece { color: color.flip(), kind: Kind::King }),
        None => false,
    }
}

/// Whether a sliding piece of `color` on `at` that moves in the directions
/// `deltas` would give check.
pub open spec fn sliding_check(board: Board, at: Position, color: Color, deltas: Seq<(i8, i8)>) -> bool {
    exists|i: int|
        0 <= i < deltas.len() && #[trigger] ray_check(
            board.placement(),
            color,
            at,
            deltas[i].0 as int,
            deltas[i].1 as int,
        )
}

/// Whether the steps of the list are short enough for the arithmetic on
/// coordinates.
pub open spec fn short_steps(deltas: Seq<(i8, i8)>) -> bool {
    forall|i: int|
        0 <= i < deltas.len() ==> -120 <= (#[trigger] deltas[i]).0 <= 120 && -120 <= deltas[i].1
            <= 120
}

/// Whether every direction of the list is a step of at most one file and
/// one rank.
pub open spec fn unit_steps(deltas: Seq<(i8, i8)>) -> bool {
    forall|i: int|
        0 <= i < deltas.len() ==> -1 <= (#[trigger] deltas[i]).0 <= 1 && -1 <= deltas[i].1 <= 1
}

/// Appending is associative.
pub proof fn lemma_append_assoc<T>(a: Seq<T>, b: Seq<T>, c: Seq<T>)
    ensures
        (a + b) + c == a + (b + c),
{
    assert((a + b) + c =~= a + (b + c));
}

/// Appending nothing changes nothing.
pub proof fn lemma_append_nothing<T>(a: Seq<T>)
    ensures
        a + Seq::<T>::empty() == a,
{
    assert(a + Seq::<T>::empty() =~= a);
}

/// Whether `p` occurs in `list`.
pub(crate) fn listed(list: &[Position], p: Position) -> (r: bool)
    ensures
        r == list@.contains(p),
{
    let mut i: usize = 0;
    while i < list.len()
        invariant
            i <= list.len(),
            forall|j: int| 0 <= j < i ==> list@[j] != p,
        decreases list.len() - i,
    {
        if list[i] == p {
            return true;
        }
        i += 1;
    }
    false
}

/// The occupant of a square as the threat query sees it.
pub(crate) fn occupant(
    board: &Board,
    cleared: &[Position],
    blocked: &[Position],
    color: Color,
    p: Position,
) -> (v: Option<Piece>)
    requires
        p.wf(),
    ensures
        v == overlay(board.placement(), cleared@, blocked@, color)(p),
{
    if listed(cleared, p) {
        None
    } else if listed(blocked, p) {
        Some(Piece { color, kind: Kind::Pawn })
    } else {
        board.get(p)
    }
}

/// Walks from `origin` in steps of `(dx, dy)` to the first occupied square.
pub(crate) fn look(
    board: &Board,
    cleared: &[Position],
    blocked: &[Position],
    color: Color,
    origin: Position,
    dx: i8,
    dy: i8,
) -> (r: Option<(Position, Piece)>)
    requires
        origin.wf(),
        -120 <= dx <= 120,
        -120 <= dy <= 120,
    ensures
        match sight(
            overlay(board.placement(), cleared@, blocked@, color),
            origin,
            dx as int,
            dy as int,
        ) {
            Some(p) => {
                &&& p.wf()
                &&& r is Some
                &&& r->Some_0.0 == p
                &&& overlay(board.placement(), cleared@, blocked@, color)(p) == Some(r->Some_0.1)
            },
            None => r is None,
        },
{
    let ghost view = overlay(board.placement(), cleared@, blocked@, color);
    let mut cur = origin;
    let mut steps: u8 = 7;
    while steps > 0
        invariant
            cur.wf(),
            -120 <= dx <= 120,
            -120 <= dy <= 120,
            view == overlay(board.placement(), cleared@, blocked@, color),
            sight(view, origin, dx as int, dy as int) == first_on_ray(
                view,
                cur,
                dx as int,
                dy as int,
                steps as nat,
            ),
        decreases steps,
    {
        match cur.offset(dx, dy) {
            None => {
                return None;
            },
            Some(p) => match occupant(board, cleared, blocked, color, p) {
                Some(piece) => {
                    return Some((p, piece));
                },
                None => {
                    cur = p;
                    steps -= 1;
                },
            },
        }
    }
    None
}

fn foe_stands(
    board: &Board,
    cleared: &[Position],
    blocked: &[Position],
    color: Color,
    origin: Position,
    dx: i8,
    dy: i8,
    kind: Kind,
) -> (r: bool)
    requires
        origin.wf(),
        -120 <= dx <= 120,
        -120 <= dy <= 120,
    ensures
        r == foe_at(
            overlay(board.placement(), cleared@, blocked@, color),
            color,
            origin,
            dx as int,
            dy as int,
            kind,
        ),
{
    match origin.offset(dx, dy) {
        None => false,
        Some(p) => match occupant(board, cleared, blocked, color, p) {
            Some(piece) => piece.color != color && piece.kind == kind,
            None => false,
        },
    }
}

fn ray_strikes(
    board: &Board,
    cleared: &[Position],
    blocked: &[Position],
    color: Color,
    origin: Position,
    dx: i8,
    dy: i8,
    slider: Kind,
) -> (r: bool)
    requires
        origin.wf(),
        -120 <= dx <= 120,
        -120 <= dy <= 120,
    ensures
        r == ray_attack(
            overlay(board.placement(), cleared@, blocked@, color),
            color,
            origin,
            dx as int,
            dy as int,
            slider,
        ),
{
    match look(board, cleared, blocked, color, origin, dx, dy) {
        Some((_, piece)) => piece.color != color && (piece.kind == slider || piece.kind
            == Kind::Queen),
        None => false,
    }
}

/// The threat query: whether a piece of `color` on `position` could be
/// captured by the other side, on the board as it would look with the
/// squares of `treat_as_empty` vacated and those of `treat_as_occupied`
/// held by pieces of `color`.
///
/// The piece in question need not stand on `position`, and en passant plays
/// no part.
pub fn threatened_at(
    position: Position,
    treat_as_empty: &[Position],
    treat_as_occupied: &[Position],
    color: Color,
    board: &Board,
) -> (r: bool)
    requires
        position.wf(),
    ensures
        r == attacked(
            overlay(board.placement(), treat_as_empty@, treat_as_occupied@, color),
            color,
            position,
        ),
{
    reveal(attacked);
    let e = treat_as_empty;
    let o = treat_as_occupied;
    let fw = color.forwards();
    foe_stands(board, e, o, color, position, 2, -1, Kind::Knight)
        || foe_stands(board, e, o, color, position, 1, -2, Kind::Knight)
        || foe_stands(board, e, o, color, position, -1, -2, Kind::Knight)
        || foe_stands(board, e, o, color, position, -2, -1, Kind::Knight)
        || foe_stands(board, e, o, color, position, -2, 1, Kind::Knight)
        || foe_stands(board, e, o, color, position, -1, 2, Kind::Knight)
        || foe_stands(board, e, o, color, position, 1, 2, Kind::Knight)
        || foe_stands(board, e, o, color, position, 2, 1, Kind::Knight)
        || ray_strikes(board, e, o, color, position, 0, 1, Kind::Rook)
        || ray_strikes(board, e, o, color, position, 1, 0, Kind::Rook)
        || ray_strikes(board, e, o, color, position, 0, -1, Kind::Rook)
        || ray_strikes(board, e, o, color, position, -1, 0, Kind::Rook)
        || ray_strikes(board, e, o, color, position, 1, 1, Kind::Bishop)
        || ray_strikes(board, e, o, color, position, 1, -1, Kind::Bishop)
        || ray_strikes(board, e, o, color, position, -1, -1, Kind::Bishop)
        || ray_strikes(board, e, o, color, position, -1, 1, Kind::Bishop)
        || foe_stands(board, e, o, color, position, -1, fw, Kind::Pawn)
        || foe_stands(board, e, o, color, position, 1, fw, Kind::Pawn)
        || foe_stands(board, e, o, color, position, 1, 0, Kind::King)
        || foe_stands(board, e, o, color, position, 1, -1, Kind::King)
        || foe_stands(board, e, o, color, position, 0, -1, Kind::King)
        || foe_stands(board, e, o, color, position, -1, -1, Kind::King)
        || foe_stands(board, e, o, color, position, -1, 0, Kind::King)
        || foe_stands(board, e, o, color, position, -1, 1, Kind::King)
        || foe_stands(board, e, o, color, position, 0, 1, Kind::King)
        || foe_stands(board, e, o, color, position, 1, 1, Kind::King)
}

/// The exec form of [`king_safe`], for a king already located.
pub(crate) fn stays_safe(
    board: &Board,
    king: Option<Position>,
    cleared: &[Position],
    blocked: &[Position],
    color: Color,
) -> (r: bool)
    requires
        king == board.king_square(color),
        king matches Some(k) ==> k.wf(),
    ensures
        r == king_safe(*board, color, cleared@, blocked@),
{
    match king {
        Some(k) => !threatened_at(k, cleared, blocked, color, board),
        None => true,
    }
}

/// Whether a piece of `color` may land on `to`.
pub(crate) fn may_land(board: &Board, color: Color, to: Position) -> (r: bool)
    requires
        to.wf(),
    ensures
        r == lands(*board, color, to),
{
    match board.get(to) {
        Some(p) => p.color != color,
        None => true,
    }
}

fn shields_king(board: &Board, color: Color, at: Position, dx: i8, dy: i8) -> (r: bool)
    requires
        at.wf(),
        -1 <= dx <= 1,
        -1 <= dy <= 1,
    ensures
        r == shields(board.placement(), color, at, dx as int, dy as int),
{
    let none: [Position; 0] = [];
    assert(none@ =~= Seq::<Position>::empty());
    assert(overlay(board.placement(), none@, none@, color) =~= board.placement());
    let toward = match look(board, &none, &none, color, at, dx, dy) {
        Some((_, piece)) => piece.color == color && piece.kind == Kind::King,
        None => false,
    };
    toward && ray_strikes(
        board,
        &none,
        &none,
        color,
        at,
        -dx,
        -dy,
        if dx == 0 || dy == 0 {
            Kind::Rook
        } else {
            Kind::Bishop
        },
    )
}

/// Pin detection: looks from `at` in all eight directions for the king of
/// `color` with an enemy slider behind `at` on the same line, and returns
/// the direction toward the king if the piece on `at` is pinned.
pub fn position_hides_check(board: &Board, at: Position, color: Color) -> (r: Option<(i8, i8)>)
    requires
        at.wf(),
    ensures
        match pin_axis(board.placement(), color, at) {
            Some(axis) => r is Some && r->Some_0.0 == axis.0 && r->Some_0.1 == axis.1,
            None => r is None,
        },
{
    if shields_king(board, color, at, 1, 0) {
        Some((1, 0))
    } else if shields_king(board, color, at, 1, -1) {
        Some((1, -1))
    } else if shields_king(board, color, at, 0, -1) {
        Some((0, -1))
    } else if shields_king(board, color, at, -1, -1) {
        Some((-1, -1))
    } else if shields_king(board, color, at, -1, 0) {
        Some((-1, 0))
    } else if shields_king(board, color, at, -1, 1) {
        Some((-1, 1))
    } else if shields_king(board, color, at, 0, 1) {
        Some((0, 1))
    } else if shields_king(board, color, at, 1, 1) {
        Some((1, 1))
    } else {
        None
    }
}

/// Whether a pin, if any, lets the piece move by `(dx, dy)`.
pub(crate) fn pin_permits(pin: Option<(i8, i8)>, dx: i8, dy: i8) -> (r: bool)
    requires
        -120 <= dx <= 120,
        -120 <= dy <= 120,
    ensures
        r == pin_allows(
            match pin {
                Some(a) => Some((a.0 as int, a.1 as int)),
                None => None,
            },
            dx as int,
            dy as int,
        ),
{
    match pin {
        Some(axis) => if axis.0 == 0 {
            dx == 0
        } else if axis.1 == 0 {
            dy == 0
        } else if axis.0 == axis.1 {
            dx == dy
        } else {
            dx == -dy
        },
        None => true,
    }
}

/// Appends `p` to `dst` if the king of `color` stays out of danger once the
/// piece on `from` stands on `p`.
pub(crate) fn push_if_safe(
    board: &Board,
    from: Position,
    color: Color,
    king: Option<Position>,
    p: Position,
    dst: &mut Vec<Position>,
)
    requires
        king == board.king_square(color),
        king matches Some(k) ==> k.wf(),
    ensures
        final(dst)@ == old(dst)@ + if_safe(*board, from, color, p),
{
    let cleared = [from];
    let blocked = [p];
    assert(cleared@ =~= seq![from]);
    assert(blocked@ =~= seq![p]);
    proof {
        lemma_append_nothing(dst@);
    }
    if stays_safe(board, king, &cleared, &blocked, color) {
        dst.push(p);
        assert(dst@ =~= old(dst)@ + seq![p]);
    }
}

fn slide_into(
    board: &Board,
    from: Position,
    color: Color,
    king: Option<Position>,
    pin: Option<(i8, i8)>,
    dx: i8,
    dy: i8,
    dst: &mut Vec<Position>,
)
    requires
        from.wf(),
        -120 <= dx <= 120,
        -120 <= dy <= 120,
        king == board.king_square(color),
        king matches Some(k) ==> k.wf(),
        match pin_axis(board.placement(), color, from) {
            Some(axis) => pin is Some && pin->Some_0.0 == axis.0 && pin->Some_0.1 == axis.1,
            None => pin is None,
        },
    ensures
        final(dst)@ == old(dst)@ + slide(*board, from, color, dx as int, dy as int),
{
    let ghost base = dst@;
    let ghost b = *board;
    proof {
        lemma_append_nothing(base);
    }
    if !pin_permits(pin, dx, dy) {
        return ;
    }
    let mut cur = from;
    let mut steps: u8 = 7;
    while steps > 0
        invariant
            cur.wf(),
            -120 <= dx <= 120,
            -120 <= dy <= 120,
            b == *board,
            king == board.king_square(color),
            king matches Some(k) ==> k.wf(),
            base == old(dst)@,
            base + slide(b, from, color, dx as int, dy as int) == dst@ + ray_moves(
                b,
                from,
                color,
                cur,
                dx as int,
                dy as int,
                steps as nat,
            ),
        decreases steps,
    {
        proof {
            lemma_append_nothing(dst@);
        }
        match cur.offset(dx, dy) {
            None => {
                return ;
            },
            Some(p) => {
                let ghost before = dst@;
                let ghost rest = ray_moves(b, from, color, p, dx as int, dy as int, (steps - 1) as nat);
                match board.get(p) {
                    None => {
                        push_if_safe(board, from, color, king, p, dst);
                        proof {
                            lemma_append_assoc(before, if_safe(b, from, color, p), rest);
                        }
                        cur = p;
                        steps -= 1;
                    },
                    Some(q) => {
                        if q.color != color {
                            push_if_safe(board, from, color, king, p, dst);
                        }
                        return ;
                    },
                }
            },
        }
    }
    proof {
        lemma_append_nothing(dst@);
    }
}

/// Appends to `dst` the legal destinations of the sliding piece on `from`
/// that moves in the directions `deltas`.
pub fn floating_moves(deltas: &[(i8, i8)], board: &Board, from: Position, dst: &mut Vec<Position>)
    requires
        from.wf(),
        board.at(from) is Some,
        short_steps(deltas@),
    ensures
        final(dst)@ == old(dst)@ + sliding_moves(
            *board,
            from,
            board.at(from)->Some_0.color,
            deltas@,
        ),
{
    let color = board.get(from).unwrap().color;
    let ghost base = dst@;
    let ghost b = *board;
    proof {
        lemma_append_nothing(base);
    }
    if board.in_double_check() {
        return ;
    }
    let king = board.find_king(color);
    let pin = position_hides_check(board, from, color);
    let mut i: usize = 0;
    assert(deltas@.take(0) =~= Seq::<(i8, i8)>::empty());
    while i < deltas.len()
        invariant
            i <= deltas.len(),
            from.wf(),
            b == *board,
            short_steps(deltas@),
            king == board.king_square(color),
            king matches Some(k) ==> k.wf(),
            match pin_axis(board.placement(), color, from) {
                Some(axis) => pin is Some && pin->Some_0.0 == axis.0 && pin->Some_0.1 == axis.1,
                None => pin is None,
            },
            dst@ == base + sweep(b, from, color, deltas@.take(i as int)),
        decreases deltas.len() - i,
    {
        let d = deltas[i];
        let ghost done = sweep(b, from, color, deltas@.take(i as int));
        slide_into(board, from, color, king, pin, d.0, d.1, dst);
        proof {
            let next = deltas@.take(i as int + 1);
            assert(next.drop_last() =~= deltas@.take(i as int));
            assert(next.last() == d);
            lemma_append_assoc(base, done, slide(b, from, color, d.0 as int, d.1 as int));
        }
        i += 1;
    }
    assert(deltas@.take(deltas.len() as int) =~= deltas@);
}

/// Whether a sliding piece of `color` on `at` that moves in the directions
/// `deltas` would give check: the enemy king is the first piece in sight
/// along one of them.
pub fn floating_checks(deltas: &[(i8, i8)], at: Position, color: Color, board: &Board) -> (r: bool)
    requires
        at.wf(),
        short_steps(deltas@),
    ensures
        r == sliding_check(*board, at, color, deltas@),
{
    let none: [Position; 0] = [];
    assert(none@ =~= Seq::<Position>::empty());
    assert(overlay(board.placement(), none@, none@, color) =~= board.placement());
    let mut i: usize = 0;
    while i < deltas.len()
        invariant
            i <= deltas.len(),
            at.wf(),
            short_steps(deltas@),
            overlay(board.placement(), none@, none@, color) == board.placement(),
            forall|j: int|
                0 <= j < i ==> !#[trigger] ray_check(
                    board.placement(),
                    color,
                    at,
                    deltas@[j].0 as int,
                    deltas@[j].1 as int,
                ),
        decreases deltas.len() - i,
    {
        let d = deltas[i];
        let hit = match look(board, &none, &none, color, at, d.0, d.1) {
            Some((_, piece)) => piece.color != color && piece.kind == Kind::King,
            None => false,
        };
        if hit {
            assert(ray_check(board.placement(), color, at, deltas@[i as int].0 as int, deltas@[i as int].1 as int));
            return true;
        }
        i += 1;
    }
    false
}

} // verus!
