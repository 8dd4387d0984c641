//! Every destination that a generator produces is produced once.

use vstd::prelude::*;
use crate::board::Board;
use crate::legality::{
    ahead,
    lemma_jump_member,
    lemma_king_step_member,
    lemma_member_one,
    lemma_member_split,
    lemma_ray_member,
};
use crate::lines::{deltas_of, lemma_listed_direction, times};
use crate::piece::util::{if_safe, ray_moves, slide, sweep};
use crate::piece::{destinations, king, knight, pawn, Kind};
use crate::util::{Color, Position};

verus! {

/// Whether no square occurs twice in a list.
pub open spec fn distinct(s: Seq<Position>) -> bool {
    forall|i: int, j: int| 0 <= i < j < s.len() ==> s[i] != s[j]
}

/// Whether a tag of every square of a list lies between two bounds.
pub open spec fn tagged(s: Seq<Position>, tag: spec_fn(Position) -> int, lo: int, hi: int) -> bool {
    forall|i: int| 0 <= i < s.len() ==> lo <= tag(#[trigger] s[i]) <= hi
}

/// Two lists without repetitions whose tags lie in ranges that do not meet
/// join to a list without repetitions.
pub proof fn lemma_join(
    a: Seq<Position>,
    b: Seq<Position>,
    tag: spec_fn(Position) -> int,
    lo: int,
    mid: int,
    hi: int,
)
    requires
        distinct(a),
        distinct(b),
        tagged(a, tag, lo, mid),
        tagged(b, tag, mid + 1, hi),
        lo <= mid + 1 <= hi + 1,
    ensures
        distinct(a + b),
        tagged(a + b, tag, lo, hi),
{
    let s = a + b;
    assert forall|i: int| 0 <= i < s.len() implies lo <= tag(#[trigger] s[i]) <= hi by {
        if i < a.len() {
            assert(s[i] == a[i]);
        } else {
            assert(s[i] == b[i - a.len()]);
        }
    }
    assert forall|i: int, j: int| 0 <= i < j < s.len() implies s[i] != s[j] by {
        if j < a.len() {
            assert(s[i] == a[i] && s[j] == a[j]);
        } else if i >= a.len() {
            assert(s[i] == b[i - a.len()] && s[j] == b[j - a.len()]);
        } else {
            assert(s[i] == a[i] && s[j] == b[j - a.len()]);
            assert(tag(a[i]) <= mid);
            assert(tag(b[j - a.len()]) >= mid + 1);
        }
    }
}

/// A list of at most one square that lies `(dx, dy)` away from `from`, if
/// it lies anywhere, has no repetition and bears the tag of that square.
pub proof fn lemma_single(
    s: Seq<Position>,
    from: Position,
    dx: int,
    dy: int,
    tag: spec_fn(Position) -> int,
    t: int,
)
    requires
        s.len() <= 1,
        forall|x: Position| s.contains(x) ==> from.shifted(dx, dy) == Some(x),
        from.shifted(dx, dy) matches Some(x) ==> tag(x) == t,
    ensures
        distinct(s),
        tagged(s, tag, t, t),
{
    if s.len() == 1 {
        assert(s.contains(s[0]));
    }
}

/// The number of a displacement among the jumps of a knight, in the order
/// in which they are tried.
pub open spec fn jump_number(df: int, dr: int) -> int {
    if df == 2 && dr == -1 {
        1
    } else if df == 1 && dr == -2 {
        2
    } else if df == -1 && dr == -2 {
        3
    } else if df == -2 && dr == -1 {
        4
    } else if df == -2 && dr == 1 {
        5
    } else if df == -1 && dr == 2 {
        6
    } else if df == 1 && dr == 2 {
        7
    } else {
        8
    }
}

proof fn lemma_jump_single(
    board: Board,
    from: Position,
    color: Color,
    dx: int,
    dy: int,
    tag: spec_fn(Position) -> int,
)
    requires
        from.wf(),
        dx != 0 || dy != 0,
        forall|x: Position| #[trigger] tag(x) == jump_number(x.file - from.file, x.rank - from.rank),
    ensures
        distinct(knight::jump(board, from, color, dx, dy)),
        tagged(
            knight::jump(board, from, color, dx, dy),
            tag,
            jump_number(dx, dy),
            jump_number(dx, dy),
        ),
{
    let s = knight::jump(board, from, color, dx, dy);
    assert(s.len() <= 1) by {
        reveal(knight::jump);
    }
    assert forall|x: Position| s.contains(x) implies from.shifted(dx, dy) == Some(x) by {
        lemma_jump_member(board, from, color, dx, dy, x);
    }
    lemma_single(s, from, dx, dy, tag, jump_number(dx, dy));
}

/// A knight's destinations are listed once each.
pub proof fn lemma_knight_moves_distinct(board: Board, from: Position, color: Color)
    requires
        from.wf(),
    ensures
        distinct(knight::moves(board, from, color)),
{
    let tag = |x: Position| jump_number(x.file - from.file, x.rank - from.rank);
    let j1 = knight::jump(board, from, color, 2, -1);
    let j2 = knight::jump(board, from, color, 1, -2);
    let j3 = knight::jump(board, from, color, -1, -2);
    let j4 = knight::jump(board, from, color, -2, -1);
    let j5 = knight::jump(board, from, color, -2, 1);
    let j6 = knight::jump(board, from, color, -1, 2);
    let j7 = knight::jump(board, from, color, 1, 2);
    let j8 = knight::jump(board, from, color, 2, 1);
    lemma_jump_single(board, from, color, 2, -1, tag);
    lemma_jump_single(board, from, color, 1, -2, tag);
    lemma_jump_single(board, from, color, -1, -2, tag);
    lemma_jump_single(board, from, color, -2, -1, tag);
    lemma_jump_single(board, from, color, -2, 1, tag);
    lemma_jump_single(board, from, color, -1, 2, tag);
    lemma_jump_single(board, from, color, 1, 2, tag);
    lemma_jump_single(board, from, color, 2, 1, tag);
    lemma_join(j1, j2, tag, 1, 1, 2);
    lemma_join(j1 + j2, j3, tag, 1, 2, 3);
    lemma_join(j1 + j2 + j3, j4, tag, 1, 3, 4);
    lemma_join(j1 + j2 + j3 + j4, j5, tag, 1, 4, 5);
    lemma_join(j1 + j2 + j3 + j4 + j5, j6, tag, 1, 5, 6);
    lemma_join(j1 + j2 + j3 + j4 + j5 + j6, j7, tag, 1, 6, 7);
    lemma_join(j1 + j2 + j3 + j4 + j5 + j6 + j7, j8, tag, 1, 7, 8);
}

/// The number of a displacement among the moves of a king, in the order in
/// which they are tried: the eight steps, then castling toward the a-file,
/// then castling toward the h-file.
pub open spec fn king_move_number(df: int, dr: int) -> int {
    if df == 1 && dr == 0 {
        1
    } else if df == 1 && dr == -1 {
        2
    } else if df == 0 && dr == -1 {
        3
    } else if df == -1 && dr == -1 {
        4
    } else if df == -1 && dr == 0 {
        5
    } else if df == -1 && dr == 1 {
        6
    } else if df == 0 && dr == 1 {
        7
    } else if df == 1 && dr == 1 {
        8
    } else if df == -2 {
        9
    } else {
        10
    }
}

proof fn lemma_step_single(
    board: Board,
    from: Position,
    color: Color,
    dx: int,
    dy: int,
    tag: spec_fn(Position) -> int,
)
    requires
        from.wf(),
        dx != 0 || dy != 0,
        -1 <= dx <= 1,
        -1 <= dy <= 1,
        forall|x: Position|
            #[trigger] tag(x) == king_move_number(x.file - from.file, x.rank - from.rank),
    ensures
        distinct(king::step(board, from, color, dx, dy)),
        tagged(
            king::step(board, from, color, dx, dy),
            tag,
            king_move_number(dx, dy),
            king_move_number(dx, dy),
        ),
{
    let s = king::step(board, from, color, dx, dy);
    assert(s.len() <= 1) by {
        reveal(king::step);
    }
    assert forall|x: Position| s.contains(x) implies from.shifted(dx, dy) == Some(x) by {
        lemma_king_step_member(board, from, color, dx, dy, x);
    }
    lemma_single(s, from, dx, dy, tag, king_move_number(dx, dy));
}

proof fn lemma_castle_single(
    board: Board,
    from: Position,
    color: Color,
    kingside: bool,
    tag: spec_fn(Position) -> int,
)
    requires
        from.wf(),
        forall|x: Position|
            #[trigger] tag(x) == king_move_number(x.file - from.file, x.rank - from.rank),
    ensures
        distinct(king::castle(board, from, color, kingside)),
        tagged(
            king::castle(board, from, color, kingside),
            tag,
            if kingside {
                10
            } else {
                9
            },
            if kingside {
                10
            } else {
                9
            },
        ),
{
    reveal(king::castle);
    let s = king::castle(board, from, color, kingside);
    if s.len() > 0 {
        assert(s[0] == king::castling_target(color, kingside));
    }
}

/// A king's destinations are listed once each.
pub proof fn lemma_king_moves_distinct(board: Board, from: Position, color: Color)
    requires
        from.wf(),
    ensures
        distinct(king::moves(board, from, color)),
{
    let tag = |x: Position| king_move_number(x.file - from.file, x.rank - from.rank);
    let s1 = king::step(board, from, color, 1, 0);
    let s2 = king::step(board, from, color, 1, -1);
    let s3 = king::step(board, from, color, 0, -1);
    let s4 = king::step(board, from, color, -1, -1);
    let s5 = king::step(board, from, color, -1, 0);
    let s6 = king::step(board, from, color, -1, 1);
    let s7 = king::step(board, from, color, 0, 1);
    let s8 = king::step(board, from, color, 1, 1);
    let q = king::castle(board, from, color, false);
    let k = king::castle(board, from, color, true);
    lemma_step_single(board, from, color, 1, 0, tag);
    lemma_step_single(board, from, color, 1, -1, tag);
    lemma_step_single(board, from, color, 0, -1, tag);
    lemma_step_single(board, from, color, -1, -1, tag);
    lemma_step_single(board, from, color, -1, 0, tag);
    lemma_step_single(board, from, color, -1, 1, tag);
    lemma_step_single(board, from, color, 0, 1, tag);
    lemma_step_single(board, from, color, 1, 1, tag);
    lemma_castle_single(board, from, color, false, tag);
    lemma_castle_single(board, from, color, true, tag);
    lemma_join(s1, s2, tag, 1, 1, 2);
    lemma_join(s1 + s2, s3, tag, 1, 2, 3);
    lemma_join(s1 + s2 + s3, s4, tag, 1, 3, 4);
    lemma_join(s1 + s2 + s3 + s4, s5, tag, 1, 4, 5);
    lemma_join(s1 + s2 + s3 + s4 + s5, s6, tag, 1, 5, 6);
    lemma_join(s1 + s2 + s3 + s4 + s5 + s6, s7, tag, 1, 6, 7);
    lemma_join(s1 + s2 + s3 + s4 + s5 + s6 + s7, s8, tag, 1, 7, 8);
    lemma_join(s1 + s2 + s3 + s4 + s5 + s6 + s7 + s8, q, tag, 1, 8, 9);
    lemma_join(s1 + s2 + s3 + s4 + s5 + s6 + s7 + s8 + q, k, tag, 1, 9, 10);
}

/// The number of a displacement among the moves of a pawn, in the order in
/// which they are tried: the advance, the double advance, the capture
/// toward the a-file, the capture toward the h-file.
pub open spec fn pawn_move_number(df: int, dr: int) -> int {
    if df == 0 && (dr == 1 || dr == -1) {
        1
    } else if df == 0 {
        2
    } else if df == -1 {
        3
    } else {
        4
    }
}

/// A pawn's destinations are listed once each.
pub proof fn lemma_pawn_moves_distinct(board: Board, from: Position, color: Color)
    requires
        from.wf(),
    ensures
        distinct(pawn::moves(board, from, color)),
{
    reveal(pawn::advance);
    reveal(pawn::double_advance);
    reveal(pawn::capture);
    let tag = |x: Position| pawn_move_number(x.file - from.file, x.rank - from.rank);
    let a = pawn::advance(board, from, color);
    let d = pawn::double_advance(board, from, color);
    let l = pawn::capture(board, from, color, -1);
    let r = pawn::capture(board, from, color, 1);
    let fwd = color.forward();
    assert forall|x: Position| a.contains(x) implies from.shifted(0, fwd) == Some(x) by {
        lemma_member_one(from.shifted(0, fwd)->Some_0, x);
        lemma_member_one(from, x);
    }
    assert forall|x: Position| d.contains(x) implies from.shifted(0, 2 * fwd) == Some(x) by {
        lemma_member_one(from.shifted(0, 2 * fwd)->Some_0, x);
        lemma_member_one(from, x);
    }
    assert forall|x: Position| l.contains(x) implies from.shifted(-1, fwd) == Some(x) by {
        lemma_member_one(from.shifted(-1, fwd)->Some_0, x);
        lemma_member_one(from, x);
    }
    assert forall|x: Position| r.contains(x) implies from.shifted(1, fwd) == Some(x) by {
        lemma_member_one(from.shifted(1, fwd)->Some_0, x);
        lemma_member_one(from, x);
    }
    lemma_single(a, from, 0, fwd, tag, 1);
    lemma_single(d, from, 0, 2 * fwd, tag, 2);
    lemma_single(l, from, -1, fwd, tag, 3);
    lemma_single(r, from, 1, fwd, tag, 4);
    lemma_join(a, d, tag, 1, 1, 2);
    lemma_join(a + d, l, tag, 1, 2, 3);
    lemma_join(a + d + l, r, tag, 1, 3, 4);
}

/// How far a square lies from `from` along a rank, file or diagonal.
pub open spec fn distance(from: Position, x: Position) -> int {
    let df = if x.file >= from.file {
        x.file - from.file
    } else {
        from.file - x.file
    };
    let dr = if x.rank >= from.rank {
        x.rank - from.rank
    } else {
        from.rank - x.rank
    };
    if df >= dr {
        df
    } else {
        dr
    }
}

/// Whether `cur` lies `m` steps of `(dx, dy)` from `from`.
pub open spec fn steps_away(from: Position, cur: Position, dx: int, dy: int, m: int) -> bool {
    &&& cur.file == from.file + times(m, dx)
    &&& cur.rank == from.rank + times(m, dy)
}

/// The destinations along a line are listed once each, nearest first.
pub proof fn lemma_ray_moves_distinct(
    board: Board,
    from: Position,
    color: Color,
    cur: Position,
    dx: int,
    dy: int,
    m: int,
    steps: nat,
)
    requires
        from.wf(),
        cur.wf(),
        -1 <= dx <= 1,
        -1 <= dy <= 1,
        dx != 0 || dy != 0,
        0 <= m,
        steps_away(from, cur, dx, dy, m),
    ensures
        distinct(ray_moves(board, from, color, cur, dx, dy, steps)),
        tagged(
            ray_moves(board, from, color, cur, dx, dy, steps),
            |x: Position| distance(from, x),
            m + 1,
            m + steps,
        ),
        forall|x: Position|
            ray_moves(board, from, color, cur, dx, dy, steps).contains(x) ==> ahead(from, x, dx, dy),
    decreases steps,
{
    let tag = |x: Position| distance(from, x);
    let s = ray_moves(board, from, color, cur, dx, dy, steps);
    assert forall|x: Position| s.contains(x) implies ahead(from, x, dx, dy) by {
        lemma_ray_member(board, from, color, cur, dx, dy, steps, x);
    }
    if steps > 0 {
        match cur.shifted(dx, dy) {
            None => {},
            Some(p) => {
                assert(steps_away(from, p, dx, dy, m + 1));
                assert(distance(from, p) == m + 1);
                let head = if_safe(board, from, color, p);
                assert(distinct(head) && tagged(head, tag, m + 1, m + 1)) by {
                    if head.len() > 0 {
                        assert(head[0] == p);
                    }
                }
                match board.at(p) {
                    None => {
                        let rest = ray_moves(board, from, color, p, dx, dy, (steps - 1) as nat);
                        lemma_ray_moves_distinct(
                            board,
                            from,
                            color,
                            p,
                            dx,
                            dy,
                            m + 1,
                            (steps - 1) as nat,
                        );
                        lemma_join(head, rest, tag, m + 1, m + 1, m + steps);
                    },
                    Some(q) => {},
                }
            },
        }
    }
}

/// Two lists without repetitions that share no square join to a list
/// without repetitions.
pub proof fn lemma_join_apart(a: Seq<Position>, b: Seq<Position>)
    requires
        distinct(a),
        distinct(b),
        forall|x: Position| a.contains(x) ==> !b.contains(x),
    ensures
        distinct(a + b),
{
    let s = a + b;
    assert forall|i: int, j: int| 0 <= i < j < s.len() implies s[i] != s[j] by {
        if j < a.len() {
            assert(s[i] == a[i] && s[j] == a[j]);
        } else if i >= a.len() {
            assert(s[i] == b[i - a.len()] && s[j] == b[j - a.len()]);
        } else {
            assert(s[i] == a[i] && s[j] == b[j - a.len()]);
            assert(a.contains(a[i]));
            assert(b.contains(b[j - a.len()]));
        }
    }
}

/// Whether the directions of a list are steps of one square, each listed
/// once.
pub open spec fn proper_directions(deltas: Seq<(i8, i8)>) -> bool {
    &&& forall|i: int|
        0 <= i < deltas.len() ==> -1 <= (#[trigger] deltas[i]).0 <= 1 && -1 <= deltas[i].1 <= 1 && (
        deltas[i].0 != 0 || deltas[i].1 != 0)
    &&& forall|i: int, j: int| 0 <= i < j < deltas.len() ==> deltas[i] != deltas[j]
}

/// The destinations of a sliding piece over a list of directions are
/// listed once each, and each lies ahead in one of the directions.
pub proof fn lemma_sweep_distinct(board: Board, from: Position, color: Color, deltas: Seq<(i8, i8)>)
    requires
        from.wf(),
        proper_directions(deltas),
    ensures
        distinct(sweep(board, from, color, deltas)),
        forall|x: Position|
            sweep(board, from, color, deltas).contains(x) ==> exists|i: int|
                0 <= i < deltas.len() && ahead(
                    from,
                    x,
                    (#[trigger] deltas[i]).0 as int,
                    deltas[i].1 as int,
                ),
    decreases deltas.len(),
{
    if deltas.len() > 0 {
        let init = deltas.drop_last();
        let last = deltas.last();
        let before = sweep(board, from, color, init);
        let here = slide(board, from, color, last.0 as int, last.1 as int);
        assert(proper_directions(init)) by {
            assert forall|i: int| 0 <= i < init.len() implies init[i] == deltas[i] by {}
        }
        lemma_sweep_distinct(board, from, color, init);
        assert(times(0, last.0 as int) == 0 && times(0, last.1 as int) == 0);
        lemma_ray_moves_distinct(board, from, color, from, last.0 as int, last.1 as int, 0, 7);
        assert forall|x: Position| here.contains(x) implies ahead(
            from,
            x,
            last.0 as int,
            last.1 as int,
        ) by {
            lemma_member_one(from, x);
        }
        assert(distinct(here));
        assert forall|x: Position| before.contains(x) implies !here.contains(x) by {
            if here.contains(x) {
                let i = choose|i: int|
                    0 <= i < init.len() && ahead(
                        from,
                        x,
                        (#[trigger] init[i]).0 as int,
                        init[i].1 as int,
                    );
                assert(init[i] == deltas[i]);
                assert(deltas[i] == last);
                assert(deltas[i] != deltas[deltas.len() - 1]);
            }
        }
        lemma_join_apart(before, here);
        assert forall|x: Position| sweep(board, from, color, deltas).contains(x) implies exists|
            i: int,
        |
            0 <= i < deltas.len() && ahead(
                from,
                x,
                (#[trigger] deltas[i]).0 as int,
                deltas[i].1 as int,
            ) by {
            lemma_member_split(before, here, x);
            if here.contains(x) {
                assert(ahead(
                    from,
                    x,
                    deltas[deltas.len() - 1].0 as int,
                    deltas[deltas.len() - 1].1 as int,
                ));
            } else {
                let i = choose|i: int|
                    0 <= i < init.len() && ahead(
                        from,
                        x,
                        (#[trigger] init[i]).0 as int,
                        init[i].1 as int,
                    );
                assert(init[i] == deltas[i]);
            }
        }
    }
}

/// Every destination of a piece is listed once.
pub proof fn lemma_destinations_distinct(board: Board, from: Position, kind: Kind)
    requires
        from.wf(),
    ensures
        distinct(destinations(board, from, kind)),
{
    match board.at(from) {
        Some(p) => {
            match kind {
                Kind::Knight => {
                    lemma_knight_moves_distinct(board, from, p.color);
                },
                Kind::King => {
                    lemma_king_moves_distinct(board, from, p.color);
                },
                Kind::Pawn => {
                    lemma_pawn_moves_distinct(board, from, p.color);
                },
                _ => {
                    let deltas = deltas_of(kind);
                    assert(proper_directions(deltas)) by {
                        assert forall|i: int| 0 <= i < deltas.len() implies -1 <= (
                        #[trigger] deltas[i]).0 <= 1 && -1 <= deltas[i].1 <= 1 && (deltas[i].0 != 0
                            || deltas[i].1 != 0) by {
                            lemma_listed_direction(kind, i);
                        }
                    }
                    lemma_sweep_distinct(board, from, p.color, deltas);
                },
            }
        },
        None => {},
    }
}

} // verus!
