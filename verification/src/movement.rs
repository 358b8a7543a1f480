//! Where a unit can move: squares reachable over passable, empty tiles within a budget of
//! movement points, where entering a tile costs its terrain's movement cost.

use vstd::prelude::*;

use crate::attack::offset_square;
use crate::board::BoardView;
use crate::position::{square, Position};

verus! {

/// The file and rank steps of the four orthogonal directions: left, right, down, up.
pub open spec fn dir_dx(d: int) -> int {
    if d == 0 {
        -1
    } else if d == 1 {
        1
    } else {
        0
    }
}

pub open spec fn dir_dy(d: int) -> int {
    if d == 2 {
        -1
    } else if d == 3 {
        1
    } else {
        0
    }
}

/// The orthogonal neighbour of `p` in direction `d` (0-3), when it is on the board.
pub open spec fn neighbor(p: Position, d: int) -> Option<Position> {
    offset_square(p, dir_dx(d), dir_dy(d))
}

/// A unit can step onto `p`: its terrain is passable and no unit stands there.
pub open spec fn enterable(b: BoardView, p: Position) -> bool {
    b.terrain_at(p).passable() && b.piece_at(p) is None
}

/// Whether `p` can be reached from `start` by orthogonal steps onto enterable squares whose
/// movement costs add up to at most `budget`. The start square itself is always reached.
pub open spec fn reachable(b: BoardView, start: Position, p: Position, budget: int) -> bool
    decreases budget,
{
    if p == start {
        true
    } else if budget > 0 && enterable(b, p) && 1 <= b.terrain_at(p).cost() <= budget {
        let rest = budget - b.terrain_at(p).cost();
        ||| (neighbor(p, 0) matches Some(n) && reachable(b, start, n, rest))
        ||| (neighbor(p, 1) matches Some(n) && reachable(b, start, n, rest))
        ||| (neighbor(p, 2) matches Some(n) && reachable(b, start, n, rest))
        ||| (neighbor(p, 3) matches Some(n) && reachable(b, start, n, rest))
    } else {
        false
    }
}

/// The squares among the first `n` (by square number) other than `start` that can be
/// reached within `budget`, in square order.
pub open spec fn squares_within(b: BoardView, start: Position, budget: int, n: int) -> Seq<Position>
    decreases n,
{
    if n <= 0 {
        Seq::empty()
    } else {
        let init = squares_within(b, start, budget, n - 1);
        let p = square(n - 1);
        if p != start && reachable(b, start, p, budget) {
            init.push(p)
        } else {
            init
        }
    }
}

/// The squares that a unit on `start` can move to within `budget`, in square order.
pub open spec fn movement_range(b: BoardView, start: Position, budget: int) -> Seq<Position> {
    squares_within(b, start, budget, 64)
}

/// Manhattan distance between two squares.
pub open spec fn manhattan(a: Position, b: Position) -> int {
    (if a.file >= b.file { a.file - b.file } else { b.file - a.file }) + (if a.rank >= b.rank {
        a.rank - b.rank
    } else {
        b.rank - a.rank
    })
}

/// What `squares_within` lists: exactly the reachable squares before square `n`, each once,
/// in increasing square order.
pub proof fn lemma_squares_within(b: BoardView, start: Position, budget: int, n: int)
    requires
        0 <= n <= 64,
    ensures
        forall|p: Position|
            #![trigger squares_within(b, start, budget, n).contains(p)]
            squares_within(b, start, budget, n).contains(p) <==> (p.valid() && p.index() < n && p
                != start && reachable(b, start, p, budget)),
        forall|i: int, j: int|
            0 <= i < j < squares_within(b, start, budget, n).len() ==> (
            #[trigger] squares_within(b, start, budget, n)[i]).index() < (
            #[trigger] squares_within(b, start, budget, n)[j]).index(),
        forall|i: int|
            0 <= i < squares_within(b, start, budget, n).len() ==> (
            #[trigger] squares_within(b, start, budget, n)[i]).valid()
                && squares_within(b, start, budget, n)[i].index() < n,
    decreases n,
{
    if n > 0 {
        lemma_squares_within(b, start, budget, n - 1);
        let init = squares_within(b, start, budget, n - 1);
        let q = square(n - 1);
        assert(q.valid() && q.index() == n - 1);
        assert forall|p: Position|
            #![trigger squares_within(b, start, budget, n).contains(p)]
            squares_within(b, start, budget, n).contains(p) <==> (p.valid() && p.index() < n && p
                != start && reachable(b, start, p, budget)) by {
            if p.valid() && p.index() == n - 1 {
                assert(p == q);
            }
            if squares_within(b, start, budget, n).contains(p) && !init.contains(p) {
                let k = choose|k: int| 0 <= k < squares_within(b, start, budget, n).len() && squares_within(b, start, budget, n)[k] == p;
                assert(k == init.len());
            }
            if init.contains(p) {
                let k = choose|k: int| 0 <= k < init.len() && init[k] == p;
                assert(squares_within(b, start, budget, n)[k] == p);
            }
            if p == q && p != start && reachable(b, start, p, budget) {
                assert(squares_within(b, start, budget, n)[init.len() as int] == p);
            }
        }
    }
}

/// Each step of a path costs at least one movement point, so a square reached within a
/// budget lies no more than that many steps away.
pub proof fn lemma_reachable_distance(b: BoardView, start: Position, p: Position, budget: int)
    requires
        reachable(b, start, p, budget),
    ensures
        manhattan(start, p) <= budget || p == start,
        budget >= 0 || p == start,
    decreases budget,
{
    if p != start {
        let rest = budget - b.terrain_at(p).cost();
        let n0 = neighbor(p, 0);
        let n1 = neighbor(p, 1);
        let n2 = neighbor(p, 2);
        let n3 = neighbor(p, 3);
        if n0 is Some && reachable(b, start, n0->0, rest) {
            lemma_reachable_distance(b, start, n0->0, rest);
        } else if n1 is Some && reachable(b, start, n1->0, rest) {
            lemma_reachable_distance(b, start, n1->0, rest);
        } else if n2 is Some && reachable(b, start, n2->0, rest) {
            lemma_reachable_distance(b, start, n2->0, rest);
        } else if n3 is Some && reachable(b, start, n3->0, rest) {
            lemma_reachable_distance(b, start, n3->0, rest);
        }
    }
}

} // verus!
