//! Lines on the board: the squares that lie some steps along a direction,
//! what it means for a line to be clear, and what pieces at the two ends of
//! a clear line see of each other.

use vstd::prelude::*;
use crate::board::Board;
use crate::legality::{lemma_member_one, lemma_member_split};
use crate::piece::{bishop, queen, rook, Kind};
use crate::piece::util::{
    along,
    first_on_ray,
    if_safe,
    ray_moves,
    sight,
    slide,
    sweep,
    unit_steps,
    Placement,
};
use crate::util::{on_board, Color, Position};

verus! {

/// `n` steps of a direction that is -1, 0 or 1.
pub open spec fn times(n: int, d: int) -> int {
    if d == 0 {
        0
    } else if d > 0 {
        n
    } else {
        -n
    }
}

/// The square `n` steps of `(dx, dy)` away from `from`.
pub open spec fn stepped(from: Position, dx: int, dy: int, n: int) -> Position {
    Position { file: (from.file + times(n, dx)) as u8, rank: (from.rank + times(n, dy)) as u8 }
}

/// Whether the `n - 1` squares that follow `from` in direction `(dx, dy)`
/// lie on the board and are empty in `view`, and the `n`th lies on the
/// board.
pub open spec fn clear_line(view: Placement, from: Position, dx: int, dy: int, n: int) -> bool {
    &&& forall|i: int|
        1 <= i <= n ==> on_board(#[trigger] times(i, dx) + from.file, times(i, dy) + from.rank)
    &&& forall|i: int| 1 <= i < n ==> view(#[trigger] stepped(from, dx, dy, i)) is None
}

/// Whether the `n - 1` squares that follow `from` in direction `(dx, dy)`
/// lie on the board and are empty, and the `n`th lies on the board.
pub open spec fn clear_path(board: Board, from: Position, dx: int, dy: int, n: int) -> bool {
    &&& forall|i: int|
        1 <= i <= n ==> on_board(#[trigger] times(i, dx) + from.file, times(i, dy) + from.rank)
    &&& forall|i: int| 1 <= i < n ==> board.at(#[trigger] stepped(from, dx, dy, i)) is None
}

/// Whether `to` is the `n`th square of a line from `from` whose squares
/// before it are empty.
pub open spec fn line_to(board: Board, from: Position, dx: int, dy: int, n: int, to: Position) -> bool {
    &&& -1 <= dx <= 1
    &&& -1 <= dy <= 1
    &&& dx != 0 || dy != 0
    &&& 1 <= n <= 7
    &&& clear_path(board, from, dx, dy, n)
    &&& to == stepped(from, dx, dy, n)
}

/// The directions in which a sliding piece of a kind moves.
pub open spec fn deltas_of(kind: Kind) -> Seq<(i8, i8)> {
    match kind {
        Kind::Rook => rook::deltas(),
        Kind::Bishop => bishop::deltas(),
        _ => queen::deltas(),
    }
}

/// Whether a piece of `kind` slides in direction `(dx, dy)`: a rook along
/// ranks and files, a bishop along diagonals, a queen along both.
pub open spec fn slides_in(kind: Kind, dx: int, dy: int) -> bool {
    &&& -1 <= dx <= 1
    &&& -1 <= dy <= 1
    &&& dx != 0 || dy != 0
    &&& if dx == 0 || dy == 0 {
        kind != Kind::Bishop
    } else {
        kind != Kind::Rook
    }
}

/// Every direction listed for a kind is one in which the kind slides.
pub proof fn lemma_listed_direction(kind: Kind, i: int)
    requires
        0 <= i < deltas_of(kind).len(),
    ensures
        slides_in(kind, deltas_of(kind)[i].0 as int, deltas_of(kind)[i].1 as int),
        unit_steps(deltas_of(kind)),
{
    let all = queen::deltas();
    assert(all[0] == (1i8, 0i8) && all[1] == (1i8, -1i8) && all[2] == (0i8, -1i8) && all[3] == (
        -1i8,
        -1i8,
    ) && all[4] == (-1i8, 0i8) && all[5] == (-1i8, 1i8) && all[6] == (0i8, 1i8) && all[7] == (
        1i8,
        1i8,
    ));
    let straight = rook::deltas();
    assert(straight[0] == (0i8, 1i8) && straight[1] == (1i8, 0i8) && straight[2] == (0i8, -1i8)
        && straight[3] == (-1i8, 0i8));
    let slanted = bishop::deltas();
    assert(slanted[0] == (1i8, 1i8) && slanted[1] == (1i8, -1i8) && slanted[2] == (-1i8, -1i8)
        && slanted[3] == (-1i8, 1i8));
}

/// Every direction in which a kind slides is listed for it.
pub proof fn lemma_direction_listed(kind: Kind, dx: int, dy: int) -> (i: int)
    requires
        slides_in(kind, dx, dy),
    ensures
        0 <= i < deltas_of(kind).len(),
        deltas_of(kind)[i].0 == dx,
        deltas_of(kind)[i].1 == dy,
{
    let all = queen::deltas();
    assert(all[0] == (1i8, 0i8) && all[1] == (1i8, -1i8) && all[2] == (0i8, -1i8) && all[3] == (
        -1i8,
        -1i8,
    ) && all[4] == (-1i8, 0i8) && all[5] == (-1i8, 1i8) && all[6] == (0i8, 1i8) && all[7] == (
        1i8,
        1i8,
    ));
    let straight = rook::deltas();
    assert(straight[0] == (0i8, 1i8) && straight[1] == (1i8, 0i8) && straight[2] == (0i8, -1i8)
        && straight[3] == (-1i8, 0i8));
    let slanted = bishop::deltas();
    assert(slanted[0] == (1i8, 1i8) && slanted[1] == (1i8, -1i8) && slanted[2] == (-1i8, -1i8)
        && slanted[3] == (-1i8, 1i8));
    match kind {
        Kind::Rook => if dx == 0 && dy == 1 {
            0
        } else if dx == 1 && dy == 0 {
            1
        } else if dx == 0 && dy == -1 {
            2
        } else {
            3
        },
        Kind::Bishop => if dx == 1 && dy == 1 {
            0
        } else if dx == 1 && dy == -1 {
            1
        } else if dx == -1 && dy == -1 {
            2
        } else {
            3
        },
        _ => if dx == 1 && dy == 0 {
            0
        } else if dx == 1 && dy == -1 {
            1
        } else if dx == 0 && dy == -1 {
            2
        } else if dx == -1 && dy == -1 {
            3
        } else if dx == -1 && dy == 0 {
            4
        } else if dx == -1 && dy == 1 {
            5
        } else if dx == 0 && dy == 1 {
            6
        } else {
            7
        },
    }
}

/// The first piece in sight stands some steps along the line, behind empty
/// squares.
pub proof fn lemma_sight_reaches(
    view: Placement,
    from: Position,
    dx: int,
    dy: int,
    m: int,
    steps: nat,
) -> (n: int)
    requires
        from.wf(),
        -1 <= dx <= 1,
        -1 <= dy <= 1,
        0 <= m,
        clear_line(view, from, dx, dy, m),
        m > 0 ==> view(stepped(from, dx, dy, m)) is None,
        first_on_ray(view, stepped(from, dx, dy, m), dx, dy, steps) is Some,
    ensures
        m < n <= m + steps,
        first_on_ray(view, stepped(from, dx, dy, m), dx, dy, steps) == Some(
            stepped(from, dx, dy, n),
        ),
        clear_line(view, from, dx, dy, n),
        view(stepped(from, dx, dy, n)) is Some,
    decreases steps,
{
    let cur = stepped(from, dx, dy, m);
    if steps == 0 {
        m + 1
    } else {
        match cur.shifted(dx, dy) {
            None => m + 1,
            Some(p) => {
                assert(p == stepped(from, dx, dy, m + 1));
                assert(clear_line(view, from, dx, dy, m + 1)) by {
                    assert(on_board(times(m + 1, dx) + from.file, times(m + 1, dy) + from.rank));
                }
                if view(p) is Some {
                    m + 1
                } else {
                    lemma_sight_reaches(view, from, dx, dy, m + 1, (steps - 1) as nat)
                }
            },
        }
    }
}

/// Looking along a clear line shows the piece at its end.
pub proof fn lemma_sight_along(
    view: Placement,
    from: Position,
    dx: int,
    dy: int,
    n: int,
    m: int,
    fuel: nat,
)
    requires
        from.wf(),
        -1 <= dx <= 1,
        -1 <= dy <= 1,
        clear_line(view, from, dx, dy, n),
        view(stepped(from, dx, dy, n)) is Some,
        0 <= m < n,
        fuel >= n - m,
    ensures
        first_on_ray(view, stepped(from, dx, dy, m), dx, dy, fuel) == Some(
            stepped(from, dx, dy, n),
        ),
    decreases n - m,
{
    let cur = stepped(from, dx, dy, m);
    let next = stepped(from, dx, dy, m + 1);
    assert(on_board(times(m + 1, dx) + from.file, times(m + 1, dy) + from.rank));
    if m > 0 {
        assert(on_board(times(m, dx) + from.file, times(m, dy) + from.rank));
    }
    assert(cur.shifted(dx, dy) == Some(next));
    if m + 1 < n {
        assert(view(next) is None);
        lemma_sight_along(view, from, dx, dy, n, m + 1, (fuel - 1) as nat);
    }
}

/// Looking back along a clear path shows the piece at its start.
pub proof fn lemma_look_back(
    board: Board,
    from: Position,
    dx: int,
    dy: int,
    n: int,
    j: int,
    fuel: nat,
)
    requires
        from.wf(),
        -1 <= dx <= 1,
        -1 <= dy <= 1,
        board.at(from) is Some,
        clear_path(board, from, dx, dy, n),
        1 <= j <= n,
        fuel >= j,
    ensures
        first_on_ray(board.placement(), stepped(from, dx, dy, j), -dx, -dy, fuel) == Some(from),
    decreases j,
{
    let here = stepped(from, dx, dy, j);
    assert(on_board(times(j, dx) + from.file, times(j, dy) + from.rank));
    if j == 1 {
        assert(here.shifted(-dx, -dy) == Some(from));
    } else {
        let before = stepped(from, dx, dy, j - 1);
        assert(on_board(times(j - 1, dx) + from.file, times(j - 1, dy) + from.rank));
        assert(here.shifted(-dx, -dy) == Some(before));
        assert(board.at(before) is None);
        lemma_look_back(board, from, dx, dy, n, j - 1, (fuel - 1) as nat);
    }
}

/// Walking back from the `n`th square of a line passes the squares before
/// it, then the start, then the squares on the other side of the start.
pub proof fn lemma_step_back(from: Position, dx: int, dy: int, n: int, i: int)
    requires
        from.wf(),
        -1 <= dx <= 1,
        -1 <= dy <= 1,
        0 <= n,
        0 <= i,
        on_board(times(n, dx) + from.file, times(n, dy) + from.rank),
        i <= n ==> on_board(times(n - i, dx) + from.file, times(n - i, dy) + from.rank),
        i > n ==> on_board(times(i - n, -dx) + from.file, times(i - n, -dy) + from.rank),
    ensures
        on_board(
            times(i, -dx) + stepped(from, dx, dy, n).file,
            times(i, -dy) + stepped(from, dx, dy, n).rank,
        ),
        stepped(stepped(from, dx, dy, n), -dx, -dy, i) == (if i <= n {
            stepped(from, dx, dy, n - i)
        } else {
            stepped(from, -dx, -dy, i - n)
        }),
{
}

/// A square off a line through `from` is none of the squares of the line.
pub proof fn lemma_off_line(from: Position, dx: int, dy: int, i: int, to: Position)
    requires
        from.wf(),
        -1 <= dx <= 1,
        -1 <= dy <= 1,
        dx != 0 || dy != 0,
        on_board(times(i, dx) + from.file, times(i, dy) + from.rank),
        !along(to.file - from.file, to.rank - from.rank, (dx, dy)) || !along(
            to.file - from.file,
            to.rank - from.rank,
            (-dx, -dy),
        ),
    ensures
        stepped(from, dx, dy, i) != to,
{
}

/// With a piece lifted off a line between two pieces, each of the two is
/// the first in sight of the other, wherever off the line the lifted piece
/// is put down.
pub proof fn lemma_line_through(
    view: Placement,
    shown: Placement,
    from: Position,
    dx: int,
    dy: int,
    n: int,
    m: int,
    to: Position,
)
    requires
        from.wf(),
        -1 <= dx <= 1,
        -1 <= dy <= 1,
        dx != 0 || dy != 0,
        1 <= n,
        1 <= m,
        clear_line(view, from, dx, dy, n),
        clear_line(view, from, -dx, -dy, m),
        shown(from) is None,
        forall|x: Position| x.wf() && x != to && view(x) is None ==> (#[trigger] shown(x)) is None,
        !along(to.file - from.file, to.rank - from.rank, (dx, dy)),
        shown(stepped(from, -dx, -dy, m)) is Some,
    ensures
        n + m <= 7,
        sight(shown, stepped(from, dx, dy, n), -dx, -dy) == Some(stepped(from, -dx, -dy, m)),
{
    let king = stepped(from, dx, dy, n);
    let pinner = stepped(from, -dx, -dy, m);
    assert(on_board(times(n, dx) + from.file, times(n, dy) + from.rank));
    assert(on_board(times(m, -dx) + from.file, times(m, -dy) + from.rank));
    assert(n + m <= 7);
    assert forall|i: int| 1 <= i <= n + m implies on_board(
        #[trigger] times(i, -dx) + king.file,
        times(i, -dy) + king.rank,
    ) by {
        if i <= n {
            if i < n {
                assert(on_board(times(n - i, dx) + from.file, times(n - i, dy) + from.rank));
            }
        } else {
            assert(on_board(times(i - n, -dx) + from.file, times(i - n, -dy) + from.rank));
        }
        lemma_step_back(from, dx, dy, n, i);
    }
    assert forall|i: int| 1 <= i < n + m implies shown(#[trigger] stepped(king, -dx, -dy, i))
        is None by {
        if i < n {
            assert(on_board(times(n - i, dx) + from.file, times(n - i, dy) + from.rank));
            lemma_step_back(from, dx, dy, n, i);
            lemma_off_line(from, dx, dy, n - i, to);
            assert(view(stepped(from, dx, dy, n - i)) is None);
        } else if i > n {
            assert(on_board(times(i - n, -dx) + from.file, times(i - n, -dy) + from.rank));
            lemma_step_back(from, dx, dy, n, i);
            lemma_off_line(from, -dx, -dy, i - n, to);
            assert(view(stepped(from, -dx, -dy, i - n)) is None);
        } else {
            lemma_step_back(from, dx, dy, n, i);
            assert(stepped(from, dx, dy, 0) == from);
        }
    }
    assert(clear_line(shown, king, -dx, -dy, n + m));
    lemma_step_back(from, dx, dy, n, n + m);
    assert(stepped(king, -dx, -dy, n + m) == pinner);
    assert(stepped(king, -dx, -dy, 0) == king);
    lemma_sight_along(shown, king, -dx, -dy, n + m, 0, 7);
}

/// A destination on a line lies some steps along it, behind empty squares.
pub proof fn lemma_ray_reaches(
    board: Board,
    from: Position,
    color: Color,
    dx: int,
    dy: int,
    m: int,
    steps: nat,
    to: Position,
) -> (n: int)
    requires
        from.wf(),
        -1 <= dx <= 1,
        -1 <= dy <= 1,
        0 <= m,
        clear_path(board, from, dx, dy, m),
        m > 0 ==> board.at(stepped(from, dx, dy, m)) is None,
        ray_moves(board, from, color, stepped(from, dx, dy, m), dx, dy, steps).contains(to),
    ensures
        m < n <= m + steps,
        to == stepped(from, dx, dy, n),
        clear_path(board, from, dx, dy, n),
    decreases steps,
{
    let cur = stepped(from, dx, dy, m);
    lemma_member_one(from, to);
    if steps == 0 {
        m + 1
    } else {
        match cur.shifted(dx, dy) {
            None => m + 1,
            Some(p) => {
                assert(p == stepped(from, dx, dy, m + 1));
                lemma_member_one(p, to);
                assert(clear_path(board, from, dx, dy, m + 1)) by {
                    assert(on_board(times(m + 1, dx) + from.file, times(m + 1, dy) + from.rank));
                    assert forall|i: int| 1 <= i < m + 1 implies board.at(
                        #[trigger] stepped(from, dx, dy, i),
                    ) is None by {
                        if i == m {
                        }
                    }
                }
                match board.at(p) {
                    None => {
                        let rest = ray_moves(board, from, color, p, dx, dy, (steps - 1) as nat);
                        lemma_member_split(if_safe(board, from, color, p), rest, to);
                        if if_safe(board, from, color, p).contains(to) {
                            m + 1
                        } else {
                            lemma_ray_reaches(
                                board,
                                from,
                                color,
                                dx,
                                dy,
                                m + 1,
                                (steps - 1) as nat,
                                to,
                            )
                        }
                    },
                    Some(q) => m + 1,
                }
            },
        }
    }
}

/// One direction of a list leads a sliding piece to each of its
/// destinations, over empty squares.
pub proof fn lemma_sweep_reaches(
    board: Board,
    from: Position,
    color: Color,
    deltas: Seq<(i8, i8)>,
    to: Position,
) -> (r: (int, int))
    requires
        from.wf(),
        crate::piece::util::unit_steps(deltas),
        sweep(board, from, color, deltas).contains(to),
    ensures
        0 <= r.0 < deltas.len(),
        1 <= r.1 <= 7,
        to == stepped(from, deltas[r.0].0 as int, deltas[r.0].1 as int, r.1),
        clear_path(board, from, deltas[r.0].0 as int, deltas[r.0].1 as int, r.1),
    decreases deltas.len(),
{
    lemma_member_one(from, to);
    let d = deltas.last();
    let before = sweep(board, from, color, deltas.drop_last());
    let here = slide(board, from, color, d.0 as int, d.1 as int);
    lemma_member_split(before, here, to);
    if here.contains(to) {
        assert(stepped(from, d.0 as int, d.1 as int, 0) == from);
        let n = lemma_ray_reaches(board, from, color, d.0 as int, d.1 as int, 0, 7, to);
        (deltas.len() - 1, n)
    } else {
        assert forall|i: int| 0 <= i < deltas.drop_last().len() implies -1 <= (
        #[trigger] deltas.drop_last()[i]).0 <= 1 && -1 <= deltas.drop_last()[i].1 <= 1 by {
            assert(deltas.drop_last()[i] == deltas[i]);
        }
        let r = lemma_sweep_reaches(board, from, color, deltas.drop_last(), to);
        assert(deltas.drop_last()[r.0] == deltas[r.0]);
        r
    }
}

} // verus!
