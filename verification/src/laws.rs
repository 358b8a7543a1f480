//! Properties of the library as a whole: what spans several functions.

use vstd::prelude::*;
use vstd::string::*;

use crate::attack::{
    jump_squares, jump_target, king_offsets, knight_offsets, pawn_offsets, attack_squares, bishop_squares, min, ray, room, rook_squares, shift, signed, AttackPattern,
};
use crate::board::{map_cell, Board, BoardView};
use crate::chess::{
    chess_move, move_record, move_text, parse_panics, parsed_move, single_dash_at, ChessSquare,
    ChessView,
};
use crate::board::GameState;
use crate::engine::{
    game_over, apply_move, attack_targets_at, is_legal, legal_moves, move_allowed, positions_of, player_positions,
};
use crate::game::{
    after_player_move,
    after_select, ai_move, closest, dist2, lemma_closest_first, lemma_closest_in, lemma_closest_is_nearest,
    lemma_nearest_is_least, nearest,
    after_computer, after_computer_turn, lemma_computer_turn_keeps, lemma_refresh_keeps, refresh,
    tokens_fit, GameView,
};
use crate::movement::{
    dir_dx, dir_dy, enterable, lemma_reachable_distance, lemma_squares_within, manhattan, neighbor, reachable,
};
use crate::position::{notation_move, notation_position, square, Move, Position};
use crate::unit::{Player, Powerup, SpecialEffect, Terrain, Unit};

verus! {

/// Reading back the notation of a square gives the square: `from_chess_notation` of what
/// `to_chess_notation` returns is the position itself.
pub proof fn law_position_notation_round_trip(p: Position, s: &str)
    requires
        p.valid(),
        s@ == p.notation(),
    ensures
        notation_position(s.spec_bytes()) == Some(p),
{
    vstd::utf8::is_ascii_chars_encode_utf8(s@);
}

/// Reading back the notation of a move gives the move: `Move::from_notation` of what
/// `to_notation` returns is the move itself.
pub proof fn law_move_notation_round_trip(m: Move, s: &str)
    requires
        m.from.valid(),
        m.to.valid(),
        s@ == m.notation(),
    ensures
        notation_move(s.spec_bytes()) == Some(m),
{
    vstd::utf8::is_ascii_chars_encode_utf8(s@);
}

/// Every legal move of a unit lies on the board, off its own square, on passable terrain
/// without a unit, and at most three squares away (so it costs at most three tokens).
pub proof fn law_legal_moves_stay_close(b: BoardView, pos: Position, to: Position)
    requires
        b.wf(),
        legal_moves(b, pos).contains(to),
    ensures
        to.valid(),
        to != pos,
        enterable(b, to),
        b.piece_at(pos) is Some,
        b.piece_at(to) is None,
        b.terrain_at(to) != Terrain::Mountain,
        manhattan(pos, to) <= 3,
{
    lemma_squares_within(b, pos, 3, 64);
    lemma_reachable_distance(b, pos, to, 3);
}

/// A unit with at least three action tokens left can make any of its legal moves.
pub proof fn law_full_tokens_allow_any_legal_move(b: BoardView, mov: Move)
    requires
        b.wf(),
        is_legal(b, mov),
        b.piece_at(mov.from)->0.action_tokens_left >= 3,
    ensures
        move_allowed(b, mov),
{
    lemma_reachable_distance(b, mov.from, mov.to, 3);
}

proof fn lemma_move_counts(b: BoardView, mov: Move, player: Player, n: int)
    requires
        b.wf(),
        move_allowed(b, mov),
        0 <= n <= 64,
    ensures
        ({
            let h: int = if b.holds_unit_of(mov.from, player) { 1 } else { 0 };
            positions_of(apply_move(b, mov), player, n).len() + (if mov.from.index() < n { h } else { 0 })
                == positions_of(b, player, n).len() + (if mov.to.index() < n { h } else { 0 })
        }),
    decreases n,
{
    if n > 0 {
        lemma_move_counts(b, mov, player, n - 1);
        let q = square(n - 1);
        assert(q.valid() && q.index() == n - 1);
        let a = apply_move(b, mov);
        if q != mov.from && q != mov.to {
            assert(q.index() != mov.from.index() && q.index() != mov.to.index());
            assert(a.piece_at(q) == b.piece_at(q));
        } else if q == mov.to {
            assert(a.holds_unit_of(q, player) == b.holds_unit_of(mov.from, player));
        }
    }
}

/// A move keeps the units: each player has as many units after it as before.
pub proof fn law_moves_keep_units(b: BoardView, mov: Move, player: Player)
    requires
        b.wf(),
    ensures
        player_positions(apply_move(b, mov), player).len() == player_positions(b, player).len(),
{
    if move_allowed(b, mov) {
        lemma_move_counts(b, mov, player, 64);
    }
}

/// A move costs one action token per square of Manhattan distance: the unit arrives with
/// that many tokens fewer, and its square is left empty.
pub proof fn law_move_spends_distance(b: BoardView, mov: Move)
    requires
        b.wf(),
        move_allowed(b, mov),
    ensures
        apply_move(b, mov).piece_at(mov.to) == Some(
            b.piece_at(mov.from)->0.spent(manhattan(mov.from, mov.to)),
        ),
        apply_move(b, mov).piece_at(mov.to)->0.action_tokens_left == b.piece_at(mov.from)->0.action_tokens_left
            - manhattan(mov.from, mov.to),
        apply_move(b, mov).piece_at(mov.from) is None,
{
    lemma_squares_within(b, mov.from, 3, 64);
}

/// When the computer hands the turn back, every human unit starts the player's turn with
/// its full action tokens.
pub proof fn law_player_turn_starts_full(v: GameView, p: Position)
    requires
        v.board.wf(),
        tokens_fit(v.board),
        after_computer(v).state == GameState::PlayerTurn,
        after_computer(v).board.holds_unit_of(p, Player::Human),
    ensures
        after_computer(v).board.piece_at(p)->0.action_tokens_left == after_computer(v).board.piece_at(
            p,
        )->0.turn_tokens(),
{
    let start = refresh(v.board, Player::Computer);
    lemma_refresh_keeps(v.board, Player::Computer);
    let units = player_positions(start, Player::Computer);
    lemma_computer_turn_keeps(start, units, units.len() as int);
    let after = after_computer_turn(v.board);
    assert(after.piece_at(p) is Some);
}

/// The text of a chess viewer move reads back as the same two squares, and never panics.
pub proof fn law_move_text_reads_back(a: ChessSquare, b: ChessSquare)
    requires
        a.i < 8,
        a.j < 8,
        b.i < 8,
        b.j < 8,
    ensures
        !parse_panics(move_text(a, b)),
        parsed_move(move_text(a, b)) == (a, b),
{
    let s = move_text(a, b);
    assert(single_dash_at(s, 2));
    let k = choose|k: int| single_dash_at(s, k);
    assert(k == 2);
    assert(s.take(2) =~= seq![s[0], s[1]]);
    assert(s.skip(3) =~= seq![s[3], s[4]]);
}

/// The viewer keeps the records of the last three moves at most, oldest first: a move
/// adds its record at the end and drops the oldest when there would be more than three.
pub proof fn law_history_keeps_last_three(v: ChessView, a: ChessSquare, b: ChessSquare, stamp: Seq<char>)
    requires
        v.history.len() <= 3,
    ensures
        ({
            let h = chess_move(v, a, b, stamp).history;
            let kept = h.len() - 1;
            &&& h.len() == if v.history.len() < 3 { v.history.len() + 1 } else { 3 }
            &&& h[kept] == move_record(stamp, a, b)
            &&& forall|k: int| 0 <= k < kept ==> #[trigger] h[k] == v.history[v.history.len() - kept + k]
        }),
{
}

/// Every square of `a` is a square of `b`.
pub open spec fn within(a: Seq<Position>, b: Seq<Position>) -> bool {
    forall|x: Position| #[trigger] a.contains(x) ==> b.contains(x)
}

/// A ray of a shorter range is the start of the same ray of a longer one.
proof fn lemma_ray_grows(from: Position, dx: int, dy: int, r1: int, r2: int)
    requires
        r1 <= r2,
    ensures
        within(ray(from, dx, dy, r1), ray(from, dx, dy, r2)),
{
    let a = ray(from, dx, dy, r1);
    let b = ray(from, dx, dy, r2);
    assert forall|x: Position| #[trigger] a.contains(x) implies b.contains(x) by {
        let i = choose|i: int| 0 <= i < a.len() && a[i] == x;
        assert(b[i] == x);
    }
}

/// Joining sequences keeps what each holds.
proof fn lemma_join_grows(a1: Seq<Position>, b1: Seq<Position>, a2: Seq<Position>, b2: Seq<Position>)
    requires
        within(a1, a2),
        within(b1, b2),
    ensures
        within(a1 + b1, a2 + b2),
{
    assert forall|x: Position| #[trigger] (a1 + b1).contains(x) implies (a2 + b2).contains(x) by {
        let i = choose|i: int| 0 <= i < (a1 + b1).len() && (a1 + b1)[i] == x;
        if i < a1.len() {
            assert(a1[i] == x);
            assert(a1.contains(x));
            let j = choose|j: int| 0 <= j < a2.len() && a2[j] == x;
            assert((a2 + b2)[j] == x);
        } else {
            assert(b1[i - a1.len()] == x);
            assert(b1.contains(x));
            let j = choose|j: int| 0 <= j < b2.len() && b2[j] == x;
            assert((a2 + b2)[a2.len() + j] == x);
        }
    }
}

proof fn lemma_rook_grows(from: Position, r1: int, r2: int)
    requires
        r1 <= r2,
    ensures
        within(rook_squares(from, r1), rook_squares(from, r2)),
{
    lemma_ray_grows(from, 0, 1, r1, r2);
    lemma_ray_grows(from, 0, -1, r1, r2);
    lemma_ray_grows(from, 1, 0, r1, r2);
    lemma_ray_grows(from, -1, 0, r1, r2);
    lemma_join_grows(ray(from, 0, 1, r1), ray(from, 0, -1, r1), ray(from, 0, 1, r2), ray(from, 0, -1, r2));
    lemma_join_grows(
        ray(from, 0, 1, r1) + ray(from, 0, -1, r1),
        ray(from, 1, 0, r1),
        ray(from, 0, 1, r2) + ray(from, 0, -1, r2),
        ray(from, 1, 0, r2),
    );
    lemma_join_grows(
        ray(from, 0, 1, r1) + ray(from, 0, -1, r1) + ray(from, 1, 0, r1),
        ray(from, -1, 0, r1),
        ray(from, 0, 1, r2) + ray(from, 0, -1, r2) + ray(from, 1, 0, r2),
        ray(from, -1, 0, r2),
    );
}

proof fn lemma_bishop_grows(from: Position, r1: int, r2: int)
    requires
        r1 <= r2,
    ensures
        within(bishop_squares(from, r1), bishop_squares(from, r2)),
{
    lemma_ray_grows(from, 1, 1, r1, r2);
    lemma_ray_grows(from, 1, -1, r1, r2);
    lemma_ray_grows(from, -1, 1, r1, r2);
    lemma_ray_grows(from, -1, -1, r1, r2);
    lemma_join_grows(ray(from, 1, 1, r1), ray(from, 1, -1, r1), ray(from, 1, 1, r2), ray(from, 1, -1, r2));
    lemma_join_grows(
        ray(from, 1, 1, r1) + ray(from, 1, -1, r1),
        ray(from, -1, 1, r1),
        ray(from, 1, 1, r2) + ray(from, 1, -1, r2),
        ray(from, -1, 1, r2),
    );
    lemma_join_grows(
        ray(from, 1, 1, r1) + ray(from, 1, -1, r1) + ray(from, -1, 1, r1),
        ray(from, -1, -1, r1),
        ray(from, 1, 1, r2) + ray(from, 1, -1, r2) + ray(from, -1, 1, r2),
        ray(from, -1, -1, r2),
    );
}

/// A longer range never strikes fewer squares: every square that an attack pattern reaches
/// with range `m1` it also reaches with any range `m2` of at least `m1`.
pub proof fn law_longer_range_reaches_more(pattern: AttackPattern, from: Position, m1: u8, m2: u8)
    requires
        m1 <= m2,
    ensures
        within(attack_squares(pattern, from, Some(m1)), attack_squares(pattern, from, Some(m2))),
{
    let a = attack_squares(pattern, from, Some(m1));
    match pattern {
        AttackPattern::LimitedRook(r) => lemma_rook_grows(from, min(m1 as int, r as int), min(m2 as int, r as int)),
        AttackPattern::Rook => lemma_rook_grows(from, m1 as int, m2 as int),
        AttackPattern::Bishop => lemma_bishop_grows(from, m1 as int, m2 as int),
        AttackPattern::Queen => {
            lemma_rook_grows(from, m1 as int, m2 as int);
            lemma_bishop_grows(from, m1 as int, m2 as int);
            lemma_join_grows(
                rook_squares(from, m1 as int),
                bishop_squares(from, m1 as int),
                rook_squares(from, m2 as int),
                bishop_squares(from, m2 as int),
            );
        },
        _ => {
            assert forall|x: Position| #[trigger] a.contains(x) implies attack_squares(pattern, from, Some(m2)).contains(x) by {
            }
        },
    }
}

/// What entering a tile costs: two movement points for forest and water, none can enter a
/// mountain, and one point for every other terrain (grass, single and double buildings,
/// monster ingress, power generator, landmine, rocket).
pub proof fn law_terrain_costs(t: Terrain)
    ensures
        (t == Terrain::Forest || t == Terrain::Water) ==> t.cost() == 2 && t.passable(),
        t == Terrain::Mountain ==> !t.passable(),
        t != Terrain::Forest && t != Terrain::Water && t != Terrain::Mountain ==> t.cost() == 1 && t.passable(),
{
}

/// The direction opposite to `d`.
spec fn opposite(d: int) -> int {
    if d == 0 {
        1
    } else if d == 1 {
        0
    } else if d == 2 {
        3
    } else {
        2
    }
}

/// Stepping back from a neighbour returns to the square.
proof fn lemma_step_back(p: Position, d: int, q: Position)
    requires
        p.valid(),
        0 <= d < 4,
        neighbor(p, d) == Some(q),
    ensures
        neighbor(q, opposite(d)) == Some(p),
        q.valid(),
        q != p,
{
    let back = opposite(d);
    assert(q.file == p.file + dir_dx(d) && q.rank == p.rank + dir_dy(d));
    assert(dir_dx(back) == -dir_dx(d) && dir_dy(back) == -dir_dy(d));
    assert(0 <= q.file + dir_dx(back) < 8 && 0 <= q.rank + dir_dy(back) < 8);
    assert(((q.file + dir_dx(back)) as u8) == p.file);
    assert(((q.rank + dir_dy(back)) as u8) == p.rank);
}

/// A square entered for one point from a neighbour reached within `budget - 1` is reached
/// within `budget`.
proof fn lemma_one_more_step(b: BoardView, start: Position, p: Position, n: Position, e: int, budget: int)
    requires
        0 <= e < 4,
        budget >= 1,
        neighbor(p, e) == Some(n),
        b.piece_at(p) is None,
        b.terrain_at(p) != Terrain::Forest && b.terrain_at(p) != Terrain::Water && b.terrain_at(p)
            != Terrain::Mountain,
        reachable(b, start, n, budget - 1),
    ensures
        reachable(b, start, p, budget),
{
    law_terrain_costs(b.terrain_at(p));
    if e == 0 {
        assert(neighbor(p, 0) == Some(n));
    } else if e == 1 {
        assert(neighbor(p, 1) == Some(n));
    } else if e == 2 {
        assert(neighbor(p, 2) == Some(n));
    } else {
        assert(neighbor(p, 3) == Some(n));
    }
}

/// A unit can move along any path of three orthogonal steps over empty tiles that are
/// neither forest, water nor mountain: each costs one point, so the end of the path (unless
/// it is the unit's own square) is among its legal moves.
pub proof fn law_three_cheap_steps_are_legal(
    b: BoardView,
    start: Position,
    d1: int,
    d2: int,
    d3: int,
    p1: Position,
    p2: Position,
    p3: Position,
)
    requires
        b.wf(),
        b.piece_at(start) is Some,
        0 <= d1 < 4,
        0 <= d2 < 4,
        0 <= d3 < 4,
        neighbor(start, d1) == Some(p1),
        neighbor(p1, d2) == Some(p2),
        neighbor(p2, d3) == Some(p3),
        forall|p: Position|
            (p == p1 || p == p2 || p == p3) ==> #[trigger] b.piece_at(p) is None && b.terrain_at(p)
                != Terrain::Forest && b.terrain_at(p) != Terrain::Water && b.terrain_at(p) != Terrain::Mountain,
        p3 != start,
    ensures
        legal_moves(b, start).contains(p3),
{
    lemma_step_back(start, d1, p1);
    lemma_step_back(p1, d2, p2);
    lemma_step_back(p2, d3, p3);
    assert(b.piece_at(p1) is None);
    assert(b.piece_at(p2) is None);
    assert(b.piece_at(p3) is None);
    assert(reachable(b, start, start, 0));
    lemma_one_more_step(b, start, p1, start, opposite(d1), 1);
    if p2 != start {
        lemma_one_more_step(b, start, p2, p1, opposite(d2), 2);
    } else {
        assert(reachable(b, start, p2, 2));
    }
    lemma_one_more_step(b, start, p3, p2, opposite(d3), 3);
    lemma_squares_within(b, start, 3, 64);
    assert(p3.index() < 64);
}

/// When human units stand on the board, the simple computer player moves a unit that has
/// legal moves to one of them, and to one that lies as near to a human unit as any other:
/// for every legal square and every human unit, some human unit is at least as near to the
/// chosen square.
pub proof fn law_computer_moves_towards_humans(b: BoardView, pos: Position, human: Position)
    requires
        b.wf(),
        legal_moves(b, pos).len() > 0,
        b.holds_unit_of(human, Player::Human),
    ensures
        ai_move(b, pos) matches Some(m) && m.from == pos && legal_moves(b, pos).contains(m.to) && forall|
            q: Position,
            h2: Position,
        |
            legal_moves(b, pos).contains(q) && b.holds_unit_of(h2, Player::Human) ==> exists|h1: Position|
                b.holds_unit_of(h1, Player::Human) && #[trigger] dist2(m.to, h1) <= #[trigger] dist2(q, h2),
{
    let moves = legal_moves(b, pos);
    let humans = player_positions(b, Player::Human);
    lemma_squares_within(b, pos, 3, 64);
    crate::engine::lemma_positions_of(b, Player::Human, 64);
    assert(human.valid());
    assert(humans.contains(human));
    let t = closest(moves, humans, moves.len() as int);
    lemma_closest_in(moves, humans, moves.len() as int);
    lemma_closest_is_nearest(moves, humans, moves.len() as int);
    let kt = choose|k: int| 0 <= k < moves.len() && moves[k] == t;
    assert(moves[kt].valid());
    assert(ai_move(b, pos) == Some(Move { from: pos, to: t }));
    assert(moves.contains(t));
    lemma_nearest_is_least(t, humans, humans.len() as int);
    let i = choose|k: int| 0 <= k < humans.len() && nearest(t, humans, humans.len() as int) == #[trigger] dist2(t, humans[k]);
    let h1 = humans[i];
    assert(b.holds_unit_of(h1, Player::Human));
    assert forall|q: Position, h2: Position|
        moves.contains(q) && b.holds_unit_of(h2, Player::Human) implies exists|h: Position|
            b.holds_unit_of(h, Player::Human) && #[trigger] dist2(t, h) <= #[trigger] dist2(q, h2) by {
        let k = choose|k: int| 0 <= k < moves.len() && moves[k] == q;
        assert(moves[k].valid());
        assert(h2.valid());
        assert(humans.contains(h2));
        let j = choose|j: int| 0 <= j < humans.len() && humans[j] == h2;
        lemma_nearest_is_least(q, humans, humans.len() as int);
        assert(nearest(t, humans, humans.len() as int) <= nearest(moves[k], humans, humans.len() as int));
        assert(nearest(q, humans, humans.len() as int) <= dist2(q, humans[j]));
        assert(dist2(t, h1) <= dist2(q, h2));
    }
}

/// Among legal squares equally near to the human units, the simple computer player takes
/// the first in square order: every legal square before the chosen one is strictly farther
/// from the human units.
pub proof fn law_computer_move_is_first_nearest(b: BoardView, pos: Position, human: Position)
    requires
        b.wf(),
        legal_moves(b, pos).len() > 0,
        b.holds_unit_of(human, Player::Human),
    ensures
        ai_move(b, pos) matches Some(m) && forall|q: Position|
            #![trigger legal_moves(b, pos).contains(q)]
            legal_moves(b, pos).contains(q) && q.index() < m.to.index() ==> exists|h1: Position|
                b.holds_unit_of(h1, Player::Human) && forall|h2: Position|
                    b.holds_unit_of(h2, Player::Human) ==> #[trigger] dist2(m.to, h1) < #[trigger] dist2(q, h2),
{
    let moves = legal_moves(b, pos);
    let humans = player_positions(b, Player::Human);
    lemma_squares_within(b, pos, 3, 64);
    crate::engine::lemma_positions_of(b, Player::Human, 64);
    assert(human.valid());
    assert(humans.contains(human));
    let t = closest(moves, humans, moves.len() as int);
    lemma_closest_in(moves, humans, moves.len() as int);
    let kt = choose|k: int| 0 <= k < moves.len() && moves[k] == t;
    assert(moves[kt].valid());
    assert(ai_move(b, pos) == Some(Move { from: pos, to: t }));
    lemma_nearest_is_least(t, humans, humans.len() as int);
    let i = choose|k: int| 0 <= k < humans.len() && nearest(t, humans, humans.len() as int) == #[trigger] dist2(t, humans[k]);
    let h1 = humans[i];
    assert(b.holds_unit_of(h1, Player::Human));
    lemma_closest_first(moves, humans, moves.len() as int);
    let jt = choose|j: int|
        0 <= j < moves.len() && moves[j] == t && forall|k: int|
            0 <= k < j ==> nearest(#[trigger] moves[k], humans, humans.len() as int) > nearest(moves[j], humans, humans.len() as int);
    assert forall|q: Position|
        #![trigger moves.contains(q)]
        moves.contains(q) && q.index() < t.index() implies exists|h: Position|
            b.holds_unit_of(h, Player::Human) && forall|h2: Position|
                b.holds_unit_of(h2, Player::Human) ==> #[trigger] dist2(t, h) < #[trigger] dist2(q, h2) by {
        let k = choose|k: int| 0 <= k < moves.len() && moves[k] == q;
        if k >= jt {
            if k > jt {
                assert(moves[jt].index() < moves[k].index());
            }
        }
        assert(k < jt);
        assert(moves[k].valid());
        lemma_nearest_is_least(q, humans, humans.len() as int);
        assert forall|h2: Position| b.holds_unit_of(h2, Player::Human) implies #[trigger] dist2(t, h1) < #[trigger] dist2(q, h2) by {
            assert(h2.valid());
            assert(humans.contains(h2));
            let j = choose|j: int| 0 <= j < humans.len() && humans[j] == h2;
            assert(nearest(q, humans, humans.len() as int) <= dist2(q, humans[j]));
        }
    }
}

/// With no human unit on the board, the simple computer player moves a unit that has legal
/// moves to its first legal square in square order.
pub proof fn law_computer_move_without_humans(b: BoardView, pos: Position)
    requires
        b.wf(),
        legal_moves(b, pos).len() > 0,
        forall|h: Position| !b.holds_unit_of(h, Player::Human),
    ensures
        ai_move(b, pos) matches Some(m) && m.from == pos && legal_moves(b, pos).contains(m.to) && forall|
            q: Position,
        | #[trigger] legal_moves(b, pos).contains(q) ==> m.to.index() <= q.index(),
{
    let moves = legal_moves(b, pos);
    let humans = player_positions(b, Player::Human);
    lemma_squares_within(b, pos, 3, 64);
    crate::engine::lemma_positions_of(b, Player::Human, 64);
    if humans.len() > 0 {
        assert(humans.contains(humans[0]));
        assert(b.holds_unit_of(humans[0], Player::Human));
    }
    assert(moves.contains(moves[0]));
    assert forall|q: Position| #[trigger] moves.contains(q) implies moves[0].index() <= q.index() by {
        let k = choose|k: int| 0 <= k < moves.len() && moves[k] == q;
        if k > 0 {
            assert(moves[0].index() < moves[k].index());
        }
    }
}

/// During the player's turn, clicking a human unit other than the selected one selects it
/// and shows its legal moves; clicking the selected unit deselects it. Either way the click
/// counts as a change of selection, and nothing else changes.
pub proof fn law_click_on_human_unit(v: GameView, pos: Position)
    requires
        v.state == GameState::PlayerTurn,
        v.board.holds_unit_of(pos, Player::Human),
    ensures
        v.selected != Some(pos) ==> after_select(v, pos) == (
            true,
            GameView { selected: Some(pos), moves: legal_moves(v.board, pos), ..v },
        ),
        v.selected == Some(pos) ==> after_select(v, pos) == (
            true,
            GameView { selected: None, moves: Seq::empty(), ..v },
        ),
{
}

/// Clicks that select nothing: outside the player's turn, on a computer unit, or on an
/// empty square with no unit selected, a click changes nothing and reports no change. On an
/// empty square that is no legal move of the selected unit, it clears the selection and
/// changes nothing else.
pub proof fn law_other_clicks(v: GameView, pos: Position)
    ensures
        v.state != GameState::PlayerTurn ==> after_select(v, pos) == (false, v),
        v.board.holds_unit_of(pos, Player::Computer) ==> after_select(v, pos) == (false, v),
        v.board.piece_at(pos) is None && v.selected is None ==> after_select(v, pos) == (false, v),
        v.state == GameState::PlayerTurn && v.board.piece_at(pos) is None && v.selected is Some
            && !v.moves.contains(pos) ==> after_select(v, pos) == (
            true,
            GameView { selected: None, moves: Seq::empty(), ..v },
        ),
{
}

/// A click on a shown legal move of the selected unit: when the engine makes the move, the
/// unit stands on the clicked square, its own square is empty, the selection is cleared and
/// the click counts as a change; when the unit lacks the tokens, nothing changes and the
/// click reports no change.
pub proof fn law_click_on_legal_move(v: GameView, pos: Position)
    requires
        v.state == GameState::PlayerTurn,
        v.board.wf(),
        v.board.piece_at(pos) is None,
        v.selected matches Some(from) && v.board.holds_unit_of(from, Player::Human),
        v.moves.contains(pos),
    ensures
        ({
            let from = v.selected->0;
            let (changed, w) = after_select(v, pos);
            &&& move_allowed(v.board, Move { from, to: pos }) ==> changed && w.selected is None
                && w.moves.len() == 0 && w.board.piece_at(from) is None && w.board.piece_at(pos) is Some
                && w.board.piece_at(pos)->0.player == Player::Human
            &&& !move_allowed(v.board, Move { from, to: pos }) ==> !changed && w == v
        }),
{
    let from = v.selected->0;
    if move_allowed(v.board, Move { from, to: pos }) {
        law_move_spends_distance(v.board, Move { from, to: pos });
    }
}

/// A unit without an action token left, or stunned, or frozen, has no attack targets; and
/// every target listed is one that `execute_attack` accepts: the attacker has a token left,
/// is neither stunned nor frozen, and the target is among the enemies its pattern reaches.
pub proof fn law_attack_targets_need_a_ready_unit(b: BoardView, pos: Position, t: Position)
    ensures
        (b.piece_at(pos) matches Some(u) && (u.action_tokens_left == 0 || u.special_effects@.contains(
            SpecialEffect::Stunned,
        ) || u.special_effects@.contains(SpecialEffect::Frozen))) ==> attack_targets_at(b, pos).len() == 0,
        attack_targets_at(b, pos).contains(t) ==> (b.piece_at(pos) matches Some(u) && u.action_tokens_left > 0
            && !u.special_effects@.contains(SpecialEffect::Stunned) && !u.special_effects@.contains(
            SpecialEffect::Frozen,
        ) && u.attack_targets(pos, b).contains(t)),
        attack_targets_at(b, pos).contains(t) ==> ({
            let u = b.piece_at(pos)->0;
            &&& attack_squares(u.attack_pattern, pos, None).contains(t)
            &&& b.piece_at(t) is Some
            &&& b.piece_at(t)->0.player != u.player
            &&& b.piece_at(t)->0.current_hit_points > 0
        }),
{
    if attack_targets_at(b, pos).contains(t) {
        let u = b.piece_at(pos)->0;
        lemma_targets_in_pattern(b, attack_squares(u.attack_pattern, pos, None), u.player, t);
    }
}

/// Every square that `enemy_squares` keeps is one of the squares it was given, holding a
/// living unit of another player.
proof fn lemma_targets_in_pattern(b: BoardView, squares: Seq<Position>, player: Player, t: Position)
    requires
        crate::board::enemy_squares(b, squares, player).contains(t),
    ensures
        squares.contains(t),
        b.holds_enemy_of(t, player),
    decreases squares.len(),
{
    let e = crate::board::enemy_squares(b, squares, player);
    let init = crate::board::enemy_squares(b, squares.drop_last(), player);
    let k = choose|k: int| 0 <= k < e.len() && e[k] == t;
    if k < init.len() {
        assert(init[k] == t);
        lemma_targets_in_pattern(b, squares.drop_last(), player, t);
        let j = choose|j: int| 0 <= j < squares.drop_last().len() && squares.drop_last()[j] == t;
        assert(squares[j] == t);
    } else {
        assert(t == squares.last());
        assert(squares[squares.len() - 1] == t);
    }
}

/// The letters of a map: `S` a single building, `D` a double building, `T` forest, `M` a
/// mountain, `W` water, `I` monster ingress; `G`, `P` (a player mech) and `H` (a computer
/// leaper) lie on grass. Distinct terrain letters give distinct terrains.
pub proof fn law_map_letters(board: Board, map: Seq<char>, p: Position)
    requires
        board.matches_map(map),
        p.valid(),
    ensures
        map_cell(map, p) == Some(seq!['S']) ==> board.terrain_at(p) == Terrain::SingleBuilding,
        map_cell(map, p) == Some(seq!['D']) ==> board.terrain_at(p) == Terrain::DoubleBuilding,
        map_cell(map, p) == Some(seq!['T']) ==> board.terrain_at(p) == Terrain::Forest,
        map_cell(map, p) == Some(seq!['M']) ==> board.terrain_at(p) == Terrain::Mountain,
        map_cell(map, p) == Some(seq!['W']) ==> board.terrain_at(p) == Terrain::Water,
        map_cell(map, p) == Some(seq!['I']) ==> board.terrain_at(p) == Terrain::MonsterIngress,
        map_cell(map, p) == Some(seq!['G']) ==> board.terrain_at(p) == Terrain::Grass,
        map_cell(map, p) is None ==> board.terrain_at(p) == Terrain::Grass && board.piece_at(p) is None,
        map_cell(map, p) == Some(seq!['P']) ==> board.terrain_at(p) == Terrain::Grass
            && board@.holds_unit_of(p, Player::Human),
        map_cell(map, p) == Some(seq!['H']) ==> board.terrain_at(p) == Terrain::Grass
            && board@.holds_unit_of(p, Player::Computer),
{
    let letters = seq![seq!['S'], seq!['D'], seq!['T'], seq!['M'], seq!['W'], seq!['I'], seq!['G'], seq!['P'], seq!['H']];
    assert forall|i: int, j: int| 0 <= i < j < 9 implies letters[i] != letters[j] by {
        assert(letters[i][0] != letters[j][0]);
    }
    assert(letters[1] != letters[0]);
    assert(letters[8] != letters[7]);
    assert(letters[8] != letters[0] && letters[8] != letters[1] && letters[8] != letters[2] && letters[8]
        != letters[3] && letters[8] != letters[4] && letters[8] != letters[5]);
    assert(letters[7] != letters[0] && letters[7] != letters[1] && letters[7] != letters[2] && letters[7]
        != letters[3] && letters[7] != letters[4] && letters[7] != letters[5]);
    assert(letters[6] != letters[0] && letters[6] != letters[1] && letters[6] != letters[2] && letters[6]
        != letters[3] && letters[6] != letters[4] && letters[6] != letters[5]);
    assert(board.terrain_at(p) == crate::board::cell_terrain(map_cell(map, p)));
}

/// After a move of the player, the turn stays with the player while the game goes on and
/// some human unit still has an action token; it passes to the computer once no human unit
/// has one; and the game is over once a side has no unit left.
pub proof fn law_turn_passes_when_tokens_are_spent(v: GameView, mov: Move)
    requires
        v.board.wf(),
    ensures
        ({
            let w = after_player_move(v, mov);
            let b = w.board;
            let sides_left = (exists|h: Position| b.holds_unit_of(h, Player::Human)) && (exists|c: Position|
                b.holds_unit_of(c, Player::Computer));
            &&& !sides_left ==> w.state == GameState::GameOver
            &&& sides_left && (exists|h: Position|
                #[trigger] b.holds_unit_of(h, Player::Human) && b.piece_at(h)->0.action_tokens_left > 0)
                ==> w.state == GameState::PlayerTurn
            &&& sides_left && (forall|h: Position|
                #[trigger] b.holds_unit_of(h, Player::Human) ==> b.piece_at(h)->0.action_tokens_left == 0)
                ==> w.state == GameState::ComputerTurn
        }),
{
    let b = after_player_move(v, mov).board;
    law_game_over_when_a_side_is_gone(b);
}

/// The game is over exactly when one side has no unit left on the board.
pub proof fn law_game_over_when_a_side_is_gone(b: BoardView)
    ensures
        game_over(b) <==> !((exists|h: Position| b.holds_unit_of(h, Player::Human)) && (exists|c: Position|
            b.holds_unit_of(c, Player::Computer))),
{
    crate::engine::lemma_positions_of(b, Player::Human, 64);
    crate::engine::lemma_positions_of(b, Player::Computer, 64);
    let hs = player_positions(b, Player::Human);
    let cs = player_positions(b, Player::Computer);
    if hs.len() > 0 {
        assert(hs.contains(hs[0]));
    }
    if cs.len() > 0 {
        assert(cs.contains(cs[0]));
    }
    if exists|h: Position| b.holds_unit_of(h, Player::Human) {
        let h = choose|h: Position| b.holds_unit_of(h, Player::Human);
        assert(hs.contains(h));
    }
    if exists|c: Position| b.holds_unit_of(c, Player::Computer) {
        let c = choose|c: Position| b.holds_unit_of(c, Player::Computer);
        assert(cs.contains(c));
    }
}

/// A unit starts each turn with its maximum of action tokens, one more when any of its
/// three powerup slots holds an extra move.
pub proof fn law_turn_tokens(u: Unit)
    ensures
        u.powerup1 != Powerup::ExtraMove && u.powerup2 != Powerup::ExtraMove && u.powerup3 != Powerup::ExtraMove
            ==> u.turn_tokens() == u.max_action_tokens,
        u.powerup1 == Powerup::ExtraMove || u.powerup2 == Powerup::ExtraMove || u.powerup3 == Powerup::ExtraMove
            ==> u.turn_tokens() == u.max_action_tokens + 1,
        u.turn_tokens() < 256 ==> u.refreshed().action_tokens_left == u.turn_tokens(),
        u.turn_tokens() < 256 ==> u.refreshed().max_action_tokens == u.max_action_tokens
            && u.refreshed().current_hit_points == u.current_hit_points && u.refreshed().player == u.player,
{
}

/// Damage takes hit points away one for one and stops at zero: a unit is destroyed exactly
/// when the damage is at least its hit points.
pub proof fn law_damage(u: Unit, d: u8)
    ensures
        d <= u.current_hit_points ==> u.damaged(d).current_hit_points + d == u.current_hit_points,
        d >= u.current_hit_points ==> u.damaged(d).current_hit_points == 0,
        (u.damaged(d).current_hit_points == 0) <==> d >= u.current_hit_points,
        u.damaged(d).max_hit_points == u.max_hit_points && u.damaged(d).action_tokens_left == u.action_tokens_left,
{
}

/// A move of the chess viewer puts the piece of the start square on the destination, leaves
/// the start square empty and every other square as it was.
pub proof fn law_chess_move_moves_the_piece(
    v: ChessView,
    a: ChessSquare,
    b: ChessSquare,
    stamp: Seq<char>,
    i: int,
    j: int,
)
    requires
        v.board.len() == 8,
        forall|r: int| 0 <= r < 8 ==> (#[trigger] v.board[r]).len() == 8,
        !crate::chess::move_refused(v, a, b),
        0 <= i < 8,
        0 <= j < 8,
    ensures
        ({
            let w = chess_move(v, a, b, stamp).board;
            &&& w[b.i as int][b.j as int] == v.board[a.i as int][a.j as int]
            &&& w[a.i as int][a.j as int] == crate::chess::EMPTY_SQUARE
            &&& (i != a.i || j != a.j) && (i != b.i || j != b.j) ==> w[i][j] == v.board[i][j]
            &&& v.board[a.i as int][a.j as int] != crate::chess::EMPTY_SQUARE
        }),
{
}

/// The squares of a jump pattern are exactly the on-board squares at one of its offsets.
proof fn lemma_jump_squares(from: Position, offs: Seq<(int, int)>, t: Position)
    ensures
        jump_squares(from, offs).contains(t) <==> exists|k: int|
            0 <= k < offs.len() && jump_target(from, #[trigger] offs[k].0, offs[k].1) == Some(t),
    decreases offs.len(),
{
    if offs.len() > 0 {
        let init = offs.drop_last();
        lemma_jump_squares(from, init, t);
        let all = jump_squares(from, offs);
        let before = jump_squares(from, init);
        if exists|k: int| 0 <= k < offs.len() && jump_target(from, #[trigger] offs[k].0, offs[k].1) == Some(t) {
            let k = choose|k: int| 0 <= k < offs.len() && jump_target(from, #[trigger] offs[k].0, offs[k].1) == Some(t);
            if k < init.len() {
                assert(init[k] == offs[k]);
                let j = choose|j: int| 0 <= j < before.len() && before[j] == t;
                assert(all[j] == t);
            } else {
                assert(all[before.len() as int] == t);
            }
        }
        if all.contains(t) {
            let j = choose|j: int| 0 <= j < all.len() && all[j] == t;
            if j < before.len() {
                assert(before[j] == t);
                assert(before.contains(t));
                let k = choose|k: int| 0 <= k < init.len() && jump_target(from, #[trigger] init[k].0, init[k].1) == Some(t);
                assert(offs[k] == init[k]);
            } else {
                assert(jump_target(from, offs[offs.len() - 1].0, offs[offs.len() - 1].1) == Some(t));
            }
        }
    }
}

/// From a square of the board, a king strikes exactly the squares of the board next to it,
/// straight or diagonally; a knight exactly the squares two steps one way and one step the
/// other; a pawn exactly the two squares diagonally forward (one rank up).
pub proof fn law_jump_patterns(from: Position, t: Position, range: Option<u8>)
    requires
        from.valid(),
    ensures
        attack_squares(AttackPattern::King, from, range).contains(t) <==> t.valid() && t != from && -1
            <= t.file - from.file <= 1 && -1 <= t.rank - from.rank <= 1,
        attack_squares(AttackPattern::Knight, from, range).contains(t) <==> t.valid() && ({
            let df = t.file - from.file;
            let dr = t.rank - from.rank;
            ((df == 1 || df == -1) && (dr == 2 || dr == -2)) || ((df == 2 || df == -2) && (dr == 1 || dr
                == -1))
        }),
        attack_squares(AttackPattern::Pawn, from, range).contains(t) <==> t.valid() && t.rank == from.rank + 1
            && (t.file == from.file + 1 || t.file + 1 == from.file),
{
    lemma_jump_squares(from, king_offsets(), t);
    lemma_jump_squares(from, knight_offsets(), t);
    lemma_jump_squares(from, pawn_offsets(), t);
    let ko = king_offsets();
    let no = knight_offsets();
    let po = pawn_offsets();
    let df = t.file - from.file;
    let dr = t.rank - from.rank;
    if t.valid() && (df, dr) != (0int, 0int) && -1 <= df <= 1 && -1 <= dr <= 1 {
        let k: int = if df == -1 {
            if dr == -1 { 0 } else if dr == 0 { 1 } else { 2 }
        } else if df == 0 {
            if dr == -1 { 3 } else { 4 }
        } else {
            if dr == -1 { 5 } else if dr == 0 { 6 } else { 7 }
        };
        assert(ko[k] == (df, dr));
        assert(jump_target(from, ko[k].0, ko[k].1) == Some(t));
    }
    if t.valid() && (((df == 1 || df == -1) && (dr == 2 || dr == -2)) || ((df == 2 || df == -2) && (dr == 1
        || dr == -1))) {
        let k: int = if df == -2 {
            if dr == -1 { 0 } else { 1 }
        } else if df == -1 {
            if dr == -2 { 2 } else { 3 }
        } else if df == 1 {
            if dr == -2 { 4 } else { 5 }
        } else {
            if dr == -1 { 6 } else { 7 }
        };
        assert(no[k] == (df, dr));
        assert(jump_target(from, no[k].0, no[k].1) == Some(t));
    }
    if t.valid() && dr == 1 && (df == 1 || df == -1) {
        let k: int = if df == 1 { 0 } else { 1 };
        assert(po[k] == (df, dr));
        assert(jump_target(from, po[k].0, po[k].1) == Some(t));
    }
}

/// How many steps in direction (dx, dy) lead from `from` to `t`, read off the moving
/// coordinate.
spec fn steps(from: Position, t: Position, dx: int, dy: int) -> int {
    if dx > 0 {
        t.file - from.file
    } else if dx < 0 {
        from.file - t.file
    } else if dy > 0 {
        t.rank - from.rank
    } else {
        from.rank - t.rank
    }
}

/// A ray from a square of the board holds exactly the squares of the board 1 to `r` steps
/// away in its direction.
proof fn lemma_ray_contains(from: Position, dx: int, dy: int, r: int, t: Position)
    requires
        from.valid(),
        -1 <= dx <= 1,
        -1 <= dy <= 1,
        dx != 0 || dy != 0,
    ensures
        ray(from, dx, dy, r).contains(t) <==> ({
            let n = steps(from, t, dx, dy);
            &&& t.valid()
            &&& 1 <= n <= r
            &&& t.file == shift(from.file as int, dx, n)
            &&& t.rank == shift(from.rank as int, dy, n)
        }),
{
    let s = ray(from, dx, dy, r);
    assert(signed(from.file) == from.file && signed(from.rank) == from.rank);
    if s.contains(t) {
        let i = choose|i: int| 0 <= i < s.len() && s[i] == t;
        assert(0 <= shift(from.file as int, dx, i + 1) < 8);
        assert(0 <= shift(from.rank as int, dy, i + 1) < 8);
        assert(t.file == shift(from.file as int, dx, i + 1));
        assert(t.rank == shift(from.rank as int, dy, i + 1));
    }
    let n = steps(from, t, dx, dy);
    if t.valid() && 1 <= n <= r && t.file == shift(from.file as int, dx, n) && t.rank == shift(
        from.rank as int,
        dy,
        n,
    ) {
        assert(n <= room(from.file as int, dx));
        assert(n <= room(from.rank as int, dy));
        assert(s[n - 1] == t);
    }
}

/// Joined sequences hold what either part holds.
proof fn lemma_join_contains(a: Seq<Position>, b: Seq<Position>, t: Position)
    ensures
        (a + b).contains(t) <==> a.contains(t) || b.contains(t),
{
    if (a + b).contains(t) {
        let i = choose|i: int| 0 <= i < (a + b).len() && (a + b)[i] == t;
        if i < a.len() {
            assert(a[i] == t);
        } else {
            assert(b[i - a.len()] == t);
        }
    }
    if a.contains(t) {
        let i = choose|i: int| 0 <= i < a.len() && a[i] == t;
        assert((a + b)[i] == t);
    }
    if b.contains(t) {
        let i = choose|i: int| 0 <= i < b.len() && b[i] == t;
        assert((a + b)[a.len() + i] == t);
    }
}

/// From a square of the board, a rook pattern of range `r` strikes exactly the other squares
/// of the board on its file or rank at most `r` steps away, and a bishop pattern exactly the
/// squares on its diagonals at most `r` steps away.
pub proof fn law_line_patterns(from: Position, r: int, t: Position)
    requires
        from.valid(),
    ensures
        rook_squares(from, r).contains(t) <==> t.valid() && t != from && ((t.file == from.file && -r
            <= t.rank - from.rank <= r) || (t.rank == from.rank && -r <= t.file - from.file <= r)),
        bishop_squares(from, r).contains(t) <==> t.valid() && t != from && -r <= t.file - from.file <= r
            && (t.rank - from.rank == t.file - from.file || t.rank - from.rank == from.file - t.file),
{
    lemma_ray_contains(from, 0, 1, r, t);
    lemma_ray_contains(from, 0, -1, r, t);
    lemma_ray_contains(from, 1, 0, r, t);
    lemma_ray_contains(from, -1, 0, r, t);
    lemma_join_contains(ray(from, 0, 1, r), ray(from, 0, -1, r), t);
    lemma_join_contains(ray(from, 0, 1, r) + ray(from, 0, -1, r), ray(from, 1, 0, r), t);
    lemma_join_contains(ray(from, 0, 1, r) + ray(from, 0, -1, r) + ray(from, 1, 0, r), ray(from, -1, 0, r), t);
    lemma_ray_contains(from, 1, 1, r, t);
    lemma_ray_contains(from, 1, -1, r, t);
    lemma_ray_contains(from, -1, 1, r, t);
    lemma_ray_contains(from, -1, -1, r, t);
    lemma_join_contains(ray(from, 1, 1, r), ray(from, 1, -1, r), t);
    lemma_join_contains(ray(from, 1, 1, r) + ray(from, 1, -1, r), ray(from, -1, 1, r), t);
    lemma_join_contains(ray(from, 1, 1, r) + ray(from, 1, -1, r) + ray(from, -1, 1, r), ray(from, -1, -1, r), t);
}

/// Which lines each pattern strikes along: a rook along its file and rank to the given
/// range (the edge of the board when none is given), a limited rook no farther than its own
/// range, a bishop along its diagonals, a queen along both, artillery along file and rank
/// to its own range whatever range is asked; no attack strikes nothing.
pub proof fn law_pattern_lines(from: Position, t: Position, m: u8, own: u8)
    ensures
        attack_squares(AttackPattern::Rook, from, Some(m)) == rook_squares(from, m as int),
        attack_squares(AttackPattern::Rook, from, None) == rook_squares(from, 7),
        attack_squares(AttackPattern::LimitedRook(own), from, Some(m)) == rook_squares(
            from,
            if m <= own { m as int } else { own as int },
        ),
        attack_squares(AttackPattern::LimitedRook(own), from, None) == rook_squares(
            from,
            if own <= 7 { own as int } else { 7 },
        ),
        attack_squares(AttackPattern::Bishop, from, Some(m)) == bishop_squares(from, m as int),
        attack_squares(AttackPattern::Queen, from, Some(m)).contains(t) <==> rook_squares(from, m as int).contains(t)
            || bishop_squares(from, m as int).contains(t),
        attack_squares(AttackPattern::RangedBallistic(own), from, Some(m)) == rook_squares(from, own as int),
        attack_squares(AttackPattern::NoAttack, from, Some(m)).len() == 0,
{
    lemma_join_contains(rook_squares(from, m as int), bishop_squares(from, m as int), t);
}

/// What is reached within a budget is reached within any larger one.
proof fn lemma_reachable_grows(b: BoardView, start: Position, p: Position, k: int, k2: int)
    requires
        reachable(b, start, p, k),
        k <= k2,
    ensures
        reachable(b, start, p, k2),
    decreases k,
{
    if p != start {
        let rest = k - b.terrain_at(p).cost();
        let rest2 = k2 - b.terrain_at(p).cost();
        let mut d: int = 3;
        if neighbor(p, 0) is Some && reachable(b, start, neighbor(p, 0)->0, rest) {
            d = 0;
        } else if neighbor(p, 1) is Some && reachable(b, start, neighbor(p, 1)->0, rest) {
            d = 1;
        } else if neighbor(p, 2) is Some && reachable(b, start, neighbor(p, 2)->0, rest) {
            d = 2;
        }
        let n = neighbor(p, d)->0;
        assert(neighbor(p, d) is Some && reachable(b, start, n, rest));
        lemma_reachable_grows(b, start, n, rest, rest2);
        assert(neighbor(p, d) matches Some(m) && reachable(b, start, m, rest2));
    }
}

/// A unit moves step by step: each of its legal moves lies next to its own square or next to
/// another of its legal moves.
pub proof fn law_legal_moves_are_connected(b: BoardView, pos: Position, to: Position)
    requires
        b.wf(),
        legal_moves(b, pos).contains(to),
    ensures
        exists|d: int|
            0 <= d < 4 && (#[trigger] neighbor(to, d) matches Some(n) && (n == pos || legal_moves(b, pos).contains(n))),
{
    lemma_squares_within(b, pos, 3, 64);
    let rest = 3 - b.terrain_at(to).cost();
    let d: int = if neighbor(to, 0) is Some && reachable(b, pos, neighbor(to, 0)->0, rest) {
        0
    } else if neighbor(to, 1) is Some && reachable(b, pos, neighbor(to, 1)->0, rest) {
        1
    } else if neighbor(to, 2) is Some && reachable(b, pos, neighbor(to, 2)->0, rest) {
        2
    } else {
        3
    };
    let n = neighbor(to, d)->0;
    assert(neighbor(to, d) is Some && reachable(b, pos, n, rest));
    if n != pos {
        lemma_reachable_grows(b, pos, n, rest, 3);
        assert(n.valid() && n.index() < 64);
        assert(legal_moves(b, pos).contains(n));
    }
}

} // verus!
