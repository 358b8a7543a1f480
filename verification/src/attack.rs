//! Attack patterns: the squares that a unit can strike from where it stands.

use vstd::prelude::*;

use crate::position::Position;

verus! {

/// Attack patterns for units.
#[derive(Debug, Clone, Copy, PartialEq, Eq, Structural)]
pub enum AttackPattern {
    /// No attack at all.
    NoAttack,
    /// Straight lines, unlimited range.
    Rook,
    /// Straight lines, limited range.
    LimitedRook(u8),
    /// Forward attack only.
    Pawn,
    /// L-shaped pattern.
    Knight,
    /// Adjacent squares.
    King,
    /// Rook + Bishop.
    Queen,
    /// Diagonal lines.
    Bishop,
    /// Artillery with a range; for now it strikes like a rook of that range.
    RangedBallistic(u8),
}

/// Coordinate `c` moved `n` steps in the direction of the sign of `d`.
pub open spec fn shift(c: int, d: int, n: int) -> int {
    if d > 0 {
        c + n
    } else if d < 0 {
        c - n
    } else {
        c
    }
}

/// A coordinate byte read as a signed byte: 0-127 as they are, 128-255 as -128 to -1.
pub open spec fn signed(c: u8) -> int {
    if c < 128 {
        c as int
    } else {
        c - 256
    }
}

/// How many steps coordinate `c` can move in the direction of `d` and stay on the board at
/// every step (a coordinate that stays put must already be on the board).
pub open spec fn room(c: int, d: int) -> int {
    if d > 0 {
        if -1 <= c <= 7 {
            7 - c
        } else {
            0
        }
    } else if d < 0 {
        if 0 <= c <= 8 {
            c
        } else {
            0
        }
    } else if 0 <= c <= 7 {
        8
    } else {
        0
    }
}

/// A step from coordinate byte `c` by `d` leaves the range of a signed byte.
pub open spec fn step_overflows(c: u8, d: int) -> bool {
    signed(c) + d < -128 || signed(c) + d > 127
}

pub open spec fn min(a: int, b: int) -> int {
    if a <= b {
        a
    } else {
        b
    }
}

/// The number of squares of a ray: its range, cut at the edge of the board.
pub open spec fn ray_len(from: Position, dx: int, dy: int, range: int) -> int {
    min(range, min(room(signed(from.file), dx), room(signed(from.rank), dy)))
}

/// The squares 1, 2, ... steps away from `from` in direction (dx, dy), up to
/// `range` steps and no further than the edge of the board, nearest first.
pub open spec fn ray(from: Position, dx: int, dy: int, range: int) -> Seq<Position> {
    Seq::new(
        if ray_len(from, dx, dy, range) > 0 { ray_len(from, dx, dy, range) as nat } else { 0 },
        |i: int|
            Position {
                file: shift(signed(from.file), dx, i + 1) as u8,
                rank: shift(signed(from.rank), dy, i + 1) as u8,
            },
    )
}

/// Computing the first step of a ray of at least one square overflows a signed byte.
pub open spec fn ray_panics(from: Position, dx: int, dy: int, range: int) -> bool {
    range >= 1 && (step_overflows(from.file, dx) || step_overflows(from.rank, dy))
}

pub open spec fn rook_panics(from: Position, range: int) -> bool {
    ray_panics(from, 0, 1, range) || ray_panics(from, 0, -1, range) || ray_panics(from, 1, 0, range)
        || ray_panics(from, -1, 0, range)
}

pub open spec fn bishop_panics(from: Position, range: int) -> bool {
    ray_panics(from, 1, 1, range) || ray_panics(from, 1, -1, range) || ray_panics(from, -1, 1, range)
        || ray_panics(from, -1, -1, range)
}

/// Computing the square at one of the offsets overflows a signed byte.
pub open spec fn jumps_panic(from: Position, offsets: Seq<(int, int)>) -> bool {
    exists|k: int|
        0 <= k < offsets.len() && (step_overflows(from.file, #[trigger] offsets[k].0) || step_overflows(
            from.rank,
            offsets[k].1,
        ))
}

/// The square at offset (dx, dy) from `from`, its coordinates read as signed bytes, when it
/// is on the board.
pub open spec fn jump_target(from: Position, dx: int, dy: int) -> Option<Position> {
    if 0 <= signed(from.file) + dx < 8 && 0 <= signed(from.rank) + dy < 8 {
        Some(Position { file: (signed(from.file) + dx) as u8, rank: (signed(from.rank) + dy) as u8 })
    } else {
        None
    }
}

/// Straight lines: up, down, right, left.
pub open spec fn rook_squares(from: Position, range: int) -> Seq<Position> {
    ray(from, 0, 1, range) + ray(from, 0, -1, range) + ray(from, 1, 0, range) + ray(from, -1, 0, range)
}

/// Diagonal lines.
pub open spec fn bishop_squares(from: Position, range: int) -> Seq<Position> {
    ray(from, 1, 1, range) + ray(from, 1, -1, range) + ray(from, -1, 1, range) + ray(from, -1, -1, range)
}

/// The square at offset (dx, dy) from `from`, when it is on the board.
pub open spec fn offset_square(from: Position, dx: int, dy: int) -> Option<Position> {
    if 0 <= from.file + dx < 8 && 0 <= from.rank + dy < 8 {
        Some(Position { file: (from.file + dx) as u8, rank: (from.rank + dy) as u8 })
    } else {
        None
    }
}

/// The squares at the given offsets that are on the board, in the order of the offsets.
pub open spec fn jump_squares(from: Position, offsets: Seq<(int, int)>) -> Seq<Position>
    decreases offsets.len(),
{
    if offsets.len() == 0 {
        seq![]
    } else {
        let init = jump_squares(from, offsets.drop_last());
        match jump_target(from, offsets.last().0, offsets.last().1) {
            Some(p) => init.push(p),
            None => init,
        }
    }
}

pub open spec fn king_offsets() -> Seq<(int, int)> {
    seq![(-1, -1), (-1, 0), (-1, 1), (0, -1), (0, 1), (1, -1), (1, 0), (1, 1)]
}

pub open spec fn knight_offsets() -> Seq<(int, int)> {
    seq![(-2, -1), (-2, 1), (-1, -2), (-1, 2), (1, -2), (1, 2), (2, -1), (2, 1)]
}

/// A pawn strikes diagonally forward, towards higher ranks.
pub open spec fn pawn_offsets() -> Seq<(int, int)> {
    seq![(1, 1), (-1, 1)]
}

/// The squares that `pattern` strikes from `from`; lines reach `max_range`
/// squares, the edge of the board (7) when it is not given.
pub open spec fn attack_squares(pattern: AttackPattern, from: Position, max_range: Option<u8>) -> Seq<Position> {
    let range: int = match max_range {
        Some(r) => r as int,
        None => 7,
    };
    match pattern {
        AttackPattern::NoAttack => seq![],
        AttackPattern::LimitedRook(r) => rook_squares(from, min(range, r as int)),
        AttackPattern::Rook => rook_squares(from, range),
        AttackPattern::King => jump_squares(from, king_offsets()),
        AttackPattern::Knight => jump_squares(from, knight_offsets()),
        AttackPattern::Pawn => jump_squares(from, pawn_offsets()),
        AttackPattern::Queen => rook_squares(from, range) + bishop_squares(from, range),
        AttackPattern::Bishop => bishop_squares(from, range),
        AttackPattern::RangedBallistic(r) => rook_squares(from, r as int),
    }
}

/// Computing the squares of `pattern` from `from` overflows a signed byte, which can only
/// happen off the board.
pub open spec fn attack_panics(pattern: AttackPattern, from: Position, max_range: Option<u8>) -> bool {
    let range: int = match max_range {
        Some(r) => r as int,
        None => 7,
    };
    match pattern {
        AttackPattern::NoAttack => false,
        AttackPattern::LimitedRook(r) => rook_panics(from, min(range, r as int)),
        AttackPattern::Rook => rook_panics(from, range),
        AttackPattern::King => jumps_panic(from, king_offsets()),
        AttackPattern::Knight => jumps_panic(from, knight_offsets()),
        AttackPattern::Pawn => jumps_panic(from, pawn_offsets()),
        AttackPattern::Queen => rook_panics(from, range) || bishop_panics(from, range),
        AttackPattern::Bishop => bishop_panics(from, range),
        AttackPattern::RangedBallistic(r) => rook_panics(from, r as int),
    }
}

/// A coordinate byte read as a signed byte.
pub(crate) fn signed_coord(c: u8) -> (r: i16)
    ensures
        r == signed(c),
{
    if c < 128 {
        c as i16
    } else {
        c as i16 - 256
    }
}

/// Appends the ray from `from` in direction (dx, dy) to `positions`.
fn push_ray(positions: &mut Vec<Position>, from: Position, dx: i8, dy: i8, range: u8)
    requires
        -1 <= dx <= 1,
        -1 <= dy <= 1,
        dx != 0 || dy != 0,
        !ray_panics(from, dx as int, dy as int, range as int),
    ensures
        final(positions)@ == old(positions)@ + ray(from, dx as int, dy as int, range as int),
{
    let ghost start = positions@;
    let fc = signed_coord(from.file);
    let rc = signed_coord(from.rank);
    let mut i: u16 = 1;
    while i <= range as u16
        invariant
            -1 <= dx <= 1,
            -1 <= dy <= 1,
            dx != 0 || dy != 0,
            fc == signed(from.file),
            rc == signed(from.rank),
            1 <= i <= range + 1,
            i - 1 <= min(room(fc as int, dx as int), room(rc as int, dy as int)),
            start == old(positions)@,
            positions@ == start + ray(from, dx as int, dy as int, i - 1),
        decreases range + 1 - i,
    {
        let f: i16 = if dx > 0 {
            fc + i as i16
        } else if dx < 0 {
            fc - i as i16
        } else {
            fc
        };
        let k: i16 = if dy > 0 {
            rc + i as i16
        } else if dy < 0 {
            rc - i as i16
        } else {
            rc
        };
        if 0 <= f && f < 8 && 0 <= k && k < 8 {
            positions.push(Position { file: f as u8, rank: k as u8 });
            proof {
                assert(ray(from, dx as int, dy as int, i as int) =~= ray(from, dx as int, dy as int, i - 1).push(
                    Position { file: f as u8, rank: k as u8 },
                ));
            }
            assert(positions@ =~= start + ray(from, dx as int, dy as int, i as int));
            i = i + 1;
        } else {
            assert(min(room(fc as int, dx as int), room(rc as int, dy as int)) < i);
            assert(ray_len(from, dx as int, dy as int, range as int) == i - 1);
            assert(ray(from, dx as int, dy as int, range as int) =~= ray(from, dx as int, dy as int, i - 1));
            return;
        }
    }
    assert(ray(from, dx as int, dy as int, range as int) =~= ray(from, dx as int, dy as int, i - 1));
}

/// Appends the on-board squares at the given offsets to `positions`.
fn push_jumps(positions: &mut Vec<Position>, from: Position, offsets: &[(i8, i8)], ghost_offsets: Ghost<Seq<(int, int)>>)
    requires
        !jumps_panic(from, ghost_offsets@),
        offsets@.len() == ghost_offsets@.len(),
        forall|k: int| 0 <= k < offsets@.len() ==>
            (#[trigger] offsets@[k]).0 as int == ghost_offsets@[k].0 && offsets@[k].1 as int == ghost_offsets@[k].1
                && -2 <= offsets@[k].0 <= 2 && -2 <= offsets@[k].1 <= 2,
    ensures
        final(positions)@ == old(positions)@ + jump_squares(from, ghost_offsets@),
{
    let ghost start = positions@;
    let ghost offs = ghost_offsets@;
    let fc = signed_coord(from.file);
    let rc = signed_coord(from.rank);
    let mut k: usize = 0;
    while k < offsets.len()
        invariant
            fc == signed(from.file),
            rc == signed(from.rank),
            offsets@.len() == offs.len(),
            forall|j: int| 0 <= j < offsets@.len() ==>
                (#[trigger] offsets@[j]).0 as int == offs[j].0 && offsets@[j].1 as int == offs[j].1
                    && -2 <= offsets@[j].0 <= 2 && -2 <= offsets@[j].1 <= 2,
            k <= offs.len(),
            positions@ == start + jump_squares(from, offs.take(k as int)),
        decreases offs.len() - k,
    {
        let (dx, dy) = offsets[k];
        let f: i16 = fc + dx as i16;
        let r: i16 = rc + dy as i16;
        assert(offs.take(k + 1).drop_last() =~= offs.take(k as int));
        if 0 <= f && f < 8 && 0 <= r && r < 8 {
            positions.push(Position { file: f as u8, rank: r as u8 });
        }
        k = k + 1;
        assert(positions@ =~= start + jump_squares(from, offs.take(k as int)));
    }
    assert(offs.take(offs.len() as int) =~= offs);
}

impl AttackPattern {
    /// Get all possible attack positions from a given position.
    /// The squares of a position off the board are computed with its coordinates read as
    /// signed bytes; those on which that overflows are left out.
    pub fn get_attack_positions(&self, from: Position, max_range: Option<u8>) -> (r: Vec<Position>)
        requires
            !attack_panics(*self, from, max_range),
        ensures
            r@ == attack_squares(*self, from, max_range),
    {
        let range = match max_range {
            Some(r) => r,
            None => 7,
        };
        let mut positions: Vec<Position> = Vec::new();
        match self {
            AttackPattern::NoAttack => {},
            AttackPattern::LimitedRook(pattern_range) => {
                let actual_range = if range <= *pattern_range { range } else { *pattern_range };
                self.push_rook_positions(&mut positions, from, actual_range);
            },
            AttackPattern::Rook => {
                self.push_rook_positions(&mut positions, from, range);
            },
            AttackPattern::King => {
                let moves: [(i8, i8); 8] = [(-1, -1), (-1, 0), (-1, 1), (0, -1), (0, 1), (1, -1), (1, 0), (1, 1)];
                push_jumps(&mut positions, from, &moves, Ghost(king_offsets()));
            },
            AttackPattern::Knight => {
                let moves: [(i8, i8); 8] = [(-2, -1), (-2, 1), (-1, -2), (-1, 2), (1, -2), (1, 2), (2, -1), (2, 1)];
                push_jumps(&mut positions, from, &moves, Ghost(knight_offsets()));
            },
            AttackPattern::Pawn => {
                let moves: [(i8, i8); 2] = [(1, 1), (-1, 1)];
                push_jumps(&mut positions, from, &moves, Ghost(pawn_offsets()));
            },
            AttackPattern::Queen => {
                self.push_rook_positions(&mut positions, from, range);
                self.push_bishop_positions(&mut positions, from, range);
            },
            AttackPattern::Bishop => {
                self.push_bishop_positions(&mut positions, from, range);
            },
            AttackPattern::RangedBallistic(artillery_range) => {
                self.push_rook_positions(&mut positions, from, *artillery_range);
            },
        }
        assert(positions@ =~= attack_squares(*self, from, max_range));
        positions
    }

    fn push_rook_positions(&self, positions: &mut Vec<Position>, from: Position, range: u8)
        requires
            !rook_panics(from, range as int),
        ensures
            final(positions)@ == old(positions)@ + rook_squares(from, range as int),
    {
        push_ray(positions, from, 0, 1, range);
        push_ray(positions, from, 0, -1, range);
        push_ray(positions, from, 1, 0, range);
        push_ray(positions, from, -1, 0, range);
        assert(final(positions)@ =~= old(positions)@ + rook_squares(from, range as int));
    }

    fn push_bishop_positions(&self, positions: &mut Vec<Position>, from: Position, range: u8)
        requires
            !bishop_panics(from, range as int),
        ensures
            final(positions)@ == old(positions)@ + bishop_squares(from, range as int),
    {
        push_ray(positions, from, 1, 1, range);
        push_ray(positions, from, 1, -1, range);
        push_ray(positions, from, -1, 1, range);
        push_ray(positions, from, -1, -1, range);
        assert(final(positions)@ =~= old(positions)@ + bishop_squares(from, range as int));
    }
}

} // verus!
