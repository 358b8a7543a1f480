//! The engine: legal moves, moves, attacks and turn bookkeeping on a board.
//! Inspired by the UCI (Universal Chess Interface) protocol.

use std::hash::BuildHasher;

use vstd::prelude::*;
use vstd::string::*;

use crate::attack::{signed, signed_coord};
use crate::board::{lemma_enemy_squares, refers_to, AttackResult, Board, BoardView};
use crate::movement::{
    enterable, lemma_squares_within, manhattan, movement_range, neighbor, reachable,
    squares_within,
};
use crate::position::{square, Move, Position};
use crate::text::push_char;
use crate::unit::{PieceType, Player, Unit};

verus! {

/// The moves that a unit standing on `pos` may make: the squares it reaches with the three
/// movement points of a turn, in square order; none when no unit stands there.
pub open spec fn legal_moves(b: BoardView, pos: Position) -> Seq<Position> {
    if b.piece_at(pos) is Some {
        movement_range(b, pos, 3)
    } else {
        Seq::empty()
    }
}

/// A unit stands on `mov.from` and can reach `mov.to` this turn.
pub open spec fn is_legal(b: BoardView, mov: Move) -> bool {
    &&& b.piece_at(mov.from) is Some
    &&& mov.to.valid()
    &&& mov.to != mov.from
    &&& reachable(b, mov.from, mov.to, 3)
}

/// `p` is entered from its neighbour in direction `d`, which is reached within `rest`.
spec fn through(b: BoardView, start: Position, p: Position, d: int, rest: int) -> bool {
    neighbor(p, d) matches Some(n) && reachable(b, start, n, rest)
}

/// Why the engine refused a move or an attack.
#[derive(Debug, Clone, Copy, PartialEq, Eq)]
pub enum EngineError {
    /// The destination is not among the legal moves of the piece ("Illegal move: a1b2").
    IllegalMove(Move),
    /// The move costs more action tokens than the unit has left.
    InsufficientTokens { needed: u8, available: u8 },
    /// No unit stands on the source square.
    NoUnit,
    /// An action token could not be spent during a move.
    TokenConsumptionFailed,
    /// The board refused the move, with its reason.
    MoveFailed(&'static str),
    /// No unit stands on the attacker's square.
    NoAttacker,
    /// The attacker has no action token left, or is stunned or frozen.
    AttackerCannotAttack,
    /// The target square is not among the attacker's targets.
    InvalidTarget,
    /// The attacker's action token could not be spent.
    AttackTokenFailed,
    /// No unit stands on the target square.
    NoTarget,
}

/// The decimal digits of `n`, most significant first.
pub open spec fn decimal(n: nat) -> Seq<char>
    decreases n,
{
    if n < 10 {
        seq![(48 + n) as char]
    } else {
        decimal(n / 10).push((48 + n % 10) as char)
    }
}

/// Appends the decimal digits of `n` to `s`.
fn push_decimal(s: &mut String, n: u8)
    ensures
        final(s)@ == old(s)@ + decimal(n as nat),
{
    proof {
        reveal_with_fuel(decimal, 3);
    }
    if n >= 100 {
        push_char(s, ((48 + n / 100) as u8) as char);
    }
    if n >= 10 {
        push_char(s, ((48 + (n / 10) % 10) as u8) as char);
    }
    push_char(s, ((48 + n % 10) as u8) as char);
    proof {
        let d = n as nat;
        if d >= 100 {
            assert(decimal(d / 10) == decimal(d / 100).push((48 + (d / 10) % 10) as char));
            assert(decimal(d / 100) == seq![(48 + d / 100) as char]);
        } else if d >= 10 {
            assert(decimal(d / 10) == seq![(48 + d / 10) as char]);
        }
        assert(final(s)@ =~= old(s)@ + decimal(d));
    }
}

impl EngineError {
    /// The text of the error, as the user reads it.
    pub open spec fn text(self) -> Seq<char> {
        match self {
            EngineError::IllegalMove(m) => "Illegal move: "@ + m.notation(),
            EngineError::InsufficientTokens { needed, available } => "Unit needs "@ + decimal(needed as nat)
                + " action tokens but only has "@ + decimal(available as nat),
            EngineError::NoUnit => "No unit at source position"@,
            EngineError::TokenConsumptionFailed => "Failed to consume action token"@,
            EngineError::MoveFailed(e) => "Move failed: "@ + e@,
            EngineError::NoAttacker => "No unit at attacker position"@,
            EngineError::AttackerCannotAttack => "Attacker cannot attack"@,
            EngineError::InvalidTarget => "Invalid attack target"@,
            EngineError::AttackTokenFailed => "Failed to use action token for attack"@,
            EngineError::NoTarget => "No target at position"@,
        }
    }

    /// The message of the error, such as "Unit needs 2 action tokens but only has 1". The
    /// squares of an illegal move must have letters and digits for their notation.
    pub fn message(&self) -> (r: String)
        requires
            self matches EngineError::IllegalMove(m) ==> 97 + m.from.file < 256 && 49 + m.from.rank < 256
                && 97 + m.to.file < 256 && 49 + m.to.rank < 256,
        ensures
            r@ == self.text(),
    {
        match self {
            EngineError::IllegalMove(m) => {
                let mut s = String::from_str("Illegal move: ");
                let n = m.to_notation();
                s.append(n.as_str());
                s
            },
            EngineError::InsufficientTokens { needed, available } => {
                let mut s = String::from_str("Unit needs ");
                push_decimal(&mut s, *needed);
                s.append(" action tokens but only has ");
                push_decimal(&mut s, *available);
                s
            },
            EngineError::NoUnit => String::from_str("No unit at source position"),
            EngineError::TokenConsumptionFailed => String::from_str("Failed to consume action token"),
            EngineError::MoveFailed(e) => {
                let mut s = String::from_str("Move failed: ");
                s.append(e);
                s
            },
            EngineError::NoAttacker => String::from_str("No unit at attacker position"),
            EngineError::AttackerCannotAttack => String::from_str("Attacker cannot attack"),
            EngineError::InvalidTarget => String::from_str("Invalid attack target"),
            EngineError::AttackTokenFailed => String::from_str("Failed to use action token for attack"),
            EngineError::NoTarget => String::from_str("No target at position"),
        }
    }
}

/// Engine that calculates legal moves and evaluates positions.
pub struct Engine {
    board: Board,
}

impl View for Engine {
    type V = BoardView;

    /// The content of the engine's board.
    closed spec fn view(&self) -> BoardView {
        self.board@
    }
}

impl Engine {
    /// The board that the engine plays on.
    pub closed spec fn board(self) -> Board {
        self.board
    }

    pub open spec fn wf(self) -> bool {
        self@.wf()
    }

    pub fn new(board: Board) -> (r: Self)
        ensures
            r.board() == board,
            r@ == board@,
    {
        Self { board }
    }

    /// Calculate all legal moves for a piece at the given position.
    pub fn get_legal_moves(&self, pos: Position) -> (r: Vec<Position>)
        ensures
            r@ == legal_moves(self@, pos),
    {
        proof {
            use_type_invariant(&self.board);
        }
        match self.board.get_piece(pos) {
            Some(_piece) => self.calculate_movement_range(pos, 3),
            None => Vec::new(),
        }
    }

    /// Whether the square at (file, rank) + direction `d` is on the board, and which it is.
    fn step(p: Position, d: usize) -> (r: Option<Position>)
        requires
            p.valid(),
            d < 4,
        ensures
            r == neighbor(p, d as int),
    {
        let (f, k): (i8, i8) = if d == 0 {
            (p.file as i8 - 1, p.rank as i8)
        } else if d == 1 {
            (p.file as i8 + 1, p.rank as i8)
        } else if d == 2 {
            (p.file as i8, p.rank as i8 - 1)
        } else {
            (p.file as i8, p.rank as i8 + 1)
        };
        if 0 <= f && f < 8 && 0 <= k && k < 8 {
            Some(Position { file: f as u8, rank: k as u8 })
        } else {
            None
        }
    }

    /// Calculate movement range for a piece (up to `max_moves` movement points).
    /// Respects terrain movement costs and obstacles.
    ///
    /// `table[b][i]` records whether square `i` is reachable within `b` points; entering a
    /// square costs at least one point, so each row follows from the rows before it.
    fn calculate_movement_range(&self, start: Position, max_moves: u8) -> (r: Vec<Position>)
        requires
            self.wf(),
            start.valid(),
        ensures
            r@ == movement_range(self@, start, max_moves as int),
    {
        let ghost b = self.board@;
        let mut table: Vec<Vec<bool>> = Vec::new();
        let mut budget: usize = 0;
        while budget <= max_moves as usize
            invariant
                self.wf(),
                b == self.board@,
                start.valid(),
                budget <= max_moves + 1,
                table@.len() == budget,
                forall|bb: int| 0 <= bb < budget ==> (#[trigger] table@[bb])@.len() == 64,
                forall|bb: int, k: int|
                    0 <= bb < budget && 0 <= k < 64 ==> (#[trigger] table@[bb]@[k]) == reachable(
                        b,
                        start,
                        square(k),
                        bb,
                    ),
            decreases max_moves + 1 - budget,
        {
            let mut row: Vec<bool> = Vec::new();
            let mut i: usize = 0;
            while i < 64
                invariant
                    self.wf(),
                    b == self.board@,
                    start.valid(),
                    budget <= max_moves,
                    table@.len() == budget,
                    forall|bb: int| 0 <= bb < budget ==> (#[trigger] table@[bb])@.len() == 64,
                    forall|bb: int, k: int|
                        0 <= bb < budget && 0 <= k < 64 ==> (#[trigger] table@[bb]@[k]) == reachable(
                            b,
                            start,
                            square(k),
                            bb,
                        ),
                    i <= 64,
                    row@.len() == i,
                    forall|k: int| 0 <= k < i ==> (#[trigger] row@[k]) == reachable(b, start, square(k), budget as int),
                decreases 64 - i,
            {
                let p = Position { file: (i % 8) as u8, rank: (i / 8) as u8 };
                assert(p == square(i as int));
                let v = if p == start {
                    true
                } else if budget == 0 {
                    false
                } else {
                    let t = self.board.get_terrain(p);
                    if !t.is_passable() || self.board.get_piece(p).is_some() {
                        false
                    } else {
                        let c = t.movement_cost() as usize;
                        if c > budget {
                            false
                        } else {
                            let rest = budget - c;
                            let mut found = false;
                            let mut d: usize = 0;
                            while d < 4
                                invariant
                                    p.valid(),
                                    rest < budget,
                                    table@.len() == budget,
                                    forall|bb: int| 0 <= bb < budget ==> (#[trigger] table@[bb])@.len() == 64,
                                    forall|bb: int, k: int|
                                        0 <= bb < budget && 0 <= k < 64 ==> (#[trigger] table@[bb]@[k])
                                            == reachable(b, start, square(k), bb),
                                    d <= 4,
                                    found == exists|e: int| 0 <= e < d && #[trigger] through(b, start, p, e, rest as int),
                                decreases 4 - d,
                            {
                                let ghost was = found;
                                match Self::step(p, d) {
                                    Some(n) => {
                                        let ni = n.rank as usize * 8 + n.file as usize;
                                        assert(square(ni as int) == n);
                                        assert(table@[rest as int]@[ni as int] == reachable(b, start, n, rest as int));
                                        if table[rest][ni] {
                                            found = true;
                                        }
                                    },
                                    None => {},
                                }
                                proof {
                                    let now = through(b, start, p, d as int, rest as int);
                                    assert(found == (was || now));
                                    if found && !was {
                                        assert(0 <= d < d + 1 && through(b, start, p, d as int, rest as int));
                                    }
                                    if (exists|e: int| 0 <= e < d + 1 && #[trigger] through(b, start, p, e, rest as int)) && !now {
                                        let e = choose|e: int| 0 <= e < d + 1 && #[trigger] through(b, start, p, e, rest as int);
                                        assert(e < d);
                                    }
                                }
                                d = d + 1;
                            }
                            assert(found == (through(b, start, p, 0, rest as int) || through(b, start, p, 1, rest as int)
                                || through(b, start, p, 2, rest as int) || through(b, start, p, 3, rest as int)));
                            found
                        }
                    }
                };
                assert(v == reachable(b, start, p, budget as int));
                row.push(v);
                i = i + 1;
            }
            table.push(row);
            budget = budget + 1;
        }
        let mut result: Vec<Position> = Vec::new();
        let mut i: usize = 0;
        while i < 64
            invariant
                start.valid(),
                table@.len() == max_moves + 1,
                forall|bb: int| 0 <= bb <= max_moves ==> (#[trigger] table@[bb])@.len() == 64,
                forall|bb: int, k: int|
                    0 <= bb <= max_moves && 0 <= k < 64 ==> (#[trigger] table@[bb]@[k]) == reachable(
                        b,
                        start,
                        square(k),
                        bb,
                    ),
                i <= 64,
                result@ == squares_within(b, start, max_moves as int, i as int),
            decreases 64 - i,
        {
            let p = Position { file: (i % 8) as u8, rank: (i / 8) as u8 };
            assert(p == square(i as int));
            if table[max_moves as usize][i] && p != start {
                result.push(p);
            }
            i = i + 1;
        }
        result
    }

    /// Calculate the minimum number of moves required to go from one position to another:
    /// the Manhattan distance, since pieces move orthogonally.
    /// Coordinates are read as signed bytes, so squares off the board whose differences do
    /// not fit in a signed byte, or whose distance does not fit in a byte, are left out.
    pub fn calculate_move_distance(&self, from: Position, to: Position) -> (r: u8)
        requires
            -127 <= signed(to.file) - signed(from.file) <= 127,
            -127 <= signed(to.rank) - signed(from.rank) <= 127,
            signed_distance(from, to) <= 255,
        ensures
            r == signed_distance(from, to),
            from.valid() && to.valid() ==> r == manhattan(from, to),
    {
        let df: i16 = signed_coord(to.file) - signed_coord(from.file);
        let dr: i16 = signed_coord(to.rank) - signed_coord(from.rank);
        let dx: u8 = if df >= 0 { df as u8 } else { (-df) as u8 };
        let dy: u8 = if dr >= 0 { dr as u8 } else { (-dr) as u8 };
        dx + dy
    }
}


/// The distance between two squares, one step per file and per rank, with coordinates read
/// as signed bytes (the Manhattan distance on the board).
pub open spec fn signed_distance(from: Position, to: Position) -> int {
    abs(signed(to.file) - signed(from.file)) + abs(signed(to.rank) - signed(from.rank))
}

pub open spec fn abs(x: int) -> int {
    if x >= 0 {
        x
    } else {
        -x
    }
}

/// A move that the engine carries out: it is legal and the unit has enough action tokens.
pub open spec fn move_allowed(b: BoardView, mov: Move) -> bool {
    is_legal(b, mov) && b.piece_at(mov.from)->0.action_tokens_left >= manhattan(mov.from, mov.to)
}

/// The board after the engine is asked to make `mov`: moved when allowed, unchanged otherwise.
pub open spec fn apply_move(b: BoardView, mov: Move) -> BoardView {
    if move_allowed(b, mov) {
        BoardView { squares: after_move(b, mov, manhattan(mov.from, mov.to)), ..b }
    } else {
        b
    }
}

/// One side has no unit left.
pub open spec fn game_over(b: BoardView) -> bool {
    player_positions(b, Player::Human).len() == 0 || player_positions(b, Player::Computer).len() == 0
}

/// The unit layer after `mov`: the unit leaves `mov.from` and stands on `mov.to`
/// with `spent` fewer action tokens.
pub open spec fn after_move(b: BoardView, mov: Move, spent: int) -> Seq<Option<Unit>> {
    b.squares.update(mov.from.index(), None).update(
        mov.to.index(),
        Some(b.piece_at(mov.from)->0.spent(spent)),
    )
}

/// The squares among the first `n` that hold a unit of `player`, in square order.
pub open spec fn positions_of(b: BoardView, player: Player, n: int) -> Seq<Position>
    decreases n,
{
    if n <= 0 {
        Seq::empty()
    } else {
        let init = positions_of(b, player, n - 1);
        if b.holds_unit_of(square(n - 1), player) {
            init.push(square(n - 1))
        } else {
            init
        }
    }
}

/// The squares that hold a unit of `player`, in square order.
pub open spec fn player_positions(b: BoardView, player: Player) -> Seq<Position> {
    positions_of(b, player, 64)
}

/// Every square of `positions_of` holds a unit of the player, and lies before square `n`.
pub proof fn lemma_positions_of(b: BoardView, player: Player, n: int)
    requires
        0 <= n <= 64,
    ensures
        forall|k: int| 0 <= k < positions_of(b, player, n).len() ==> {
            &&& (#[trigger] positions_of(b, player, n)[k]).valid()
            &&& positions_of(b, player, n)[k].index() < n
            &&& b.holds_unit_of(positions_of(b, player, n)[k], player)
        },
        forall|p: Position| #![trigger positions_of(b, player, n).contains(p)]
            positions_of(b, player, n).contains(p) <==> (p.valid() && p.index() < n
                && b.holds_unit_of(p, player)),
    decreases n,
{
    if n > 0 {
        lemma_positions_of(b, player, n - 1);
        let init = positions_of(b, player, n - 1);
        let q = square(n - 1);
        assert(q.valid() && q.index() == n - 1);
        assert forall|p: Position| #![trigger positions_of(b, player, n).contains(p)]
            positions_of(b, player, n).contains(p) <==> (p.valid() && p.index() < n
                && b.holds_unit_of(p, player)) by {
            if p.valid() && p.index() == n - 1 {
                assert(p == q);
            }
            if positions_of(b, player, n).contains(p) && !init.contains(p) {
                let k = choose|k: int| 0 <= k < positions_of(b, player, n).len() && positions_of(b, player, n)[k] == p;
                assert(k == init.len());
            }
            if init.contains(p) {
                let k = choose|k: int| 0 <= k < init.len() && init[k] == p;
                assert(positions_of(b, player, n)[k] == p);
            }
            if p == q && b.holds_unit_of(p, player) {
                assert(positions_of(b, player, n)[init.len() as int] == p);
            }
        }
    }
}

/// The hash of a square under the standard library's `DefaultHasher`.
pub uninterp spec fn default_hash(file: u8, rank: u8) -> u64;

/// Hashes the file and rank of `pos` (the byte writes of hashing a `Position`) with a
/// `DefaultHasher` made by `DefaultHasher::new()`, through `BuildHasher::hash_one`. Such a hasher always starts from the same fixed keys, so the
/// hash depends on the square alone (for a given build of the standard library).
#[verifier::external_body]
fn hash_position(pos: Position) -> (r: u64)
    ensures
        r == default_hash(pos.file, pos.rank),
{
    std::hash::BuildHasherDefault::<std::collections::hash_map::DefaultHasher>::default().hash_one((pos.file, pos.rank))
}

/// The move of the simple computer player: the first computer unit (in square order, from
/// the `k`-th on) that has a legal move moves to the legal square picked by the hash of its
/// own square.
pub open spec fn computer_move_from(b: BoardView, units: Seq<Position>, k: int) -> Option<Move>
    decreases units.len() - k,
{
    if k < 0 || k >= units.len() {
        None
    } else {
        let moves = legal_moves(b, units[k]);
        if moves.len() > 0 {
            Some(Move {
                from: units[k],
                to: moves[((default_hash(units[k].file, units[k].rank) as usize) as int) % (moves.len() as int)],
            })
        } else {
            computer_move_from(b, units, k + 1)
        }
    }
}

/// The move of the simple computer player for a unit on `from` with the legal moves
/// `moves`, given the hash of its square: the legal square at the hash's position, counted
/// round the list.
pub fn pick_move(from: Position, moves: &Vec<Position>, hash: u64) -> (r: Move)
    requires
        moves@.len() > 0,
    ensures
        r == (Move { from, to: moves@[((hash as usize) as int) % (moves@.len() as int)] }),
{
    let index = (hash as usize) % moves.len();
    Move::new(from, moves[index])
}

/// Whether `v` holds `p`.
fn contains_position(v: &Vec<Position>, p: Position) -> (r: bool)
    ensures
        r == v@.contains(p),
{
    let mut i: usize = 0;
    while i < v.len()
        invariant
            i <= v@.len(),
            forall|k: int| 0 <= k < i ==> v@[k] != p,
        decreases v@.len() - i,
    {
        if v[i] == p {
            return true;
        }
        i = i + 1;
    }
    false
}

impl Engine {
    /// Make a move on the board: the destination must be a legal move of the unit, which
    /// spends one action token per square of Manhattan distance.
    pub fn make_move(&mut self, mov: Move) -> (r: Result<(), EngineError>)
        ensures
            final(self).wf(),
            r is Ok <==> move_allowed(old(self)@, mov),
            final(self)@ == apply_move(old(self)@, mov),
            !is_legal(old(self)@, mov) ==> r == Err::<(), EngineError>(EngineError::IllegalMove(mov))
                && final(self)@ == old(self)@,
            is_legal(old(self)@, mov) && old(self)@.piece_at(mov.from)->0.action_tokens_left
                < manhattan(mov.from, mov.to) ==> r == Err::<(), EngineError>(
                EngineError::InsufficientTokens {
                    needed: manhattan(mov.from, mov.to) as u8,
                    available: old(self)@.piece_at(mov.from)->0.action_tokens_left,
                },
            ) && final(self)@ == old(self)@,
            is_legal(old(self)@, mov) && old(self)@.piece_at(mov.from)->0.action_tokens_left
                >= manhattan(mov.from, mov.to) ==> r is Ok
                && final(self)@.squares == after_move(old(self)@, mov, manhattan(mov.from, mov.to))
                && final(self)@.tiles == old(self)@.tiles
                && final(self)@.effects == old(self)@.effects,
    {
        proof {
            use_type_invariant(&self.board);
        }
        let ghost b = self.board@;
        let legal_moves = self.get_legal_moves(mov.from);
        proof {
            lemma_squares_within(b, mov.from, 3, 64);
            if legal_moves@.contains(mov.to) {
                assert(mov.to.valid());
            }
        }
        if !contains_position(&legal_moves, mov.to) {
            return Err(EngineError::IllegalMove(mov));
        }
        assert(is_legal(b, mov));
        let move_distance = self.calculate_move_distance(mov.from, mov.to);
        match self.board.get_piece(mov.from) {
            Some(unit) => {
                if unit.action_tokens_left < move_distance {
                    return Err(EngineError::InsufficientTokens {
                        needed: move_distance,
                        available: unit.action_tokens_left,
                    });
                }
            },
            None => {
                return Err(EngineError::NoUnit);
            },
        }
        let ghost u = b.piece_at(mov.from)->0;
        let mut k: u8 = 0;
        assert(u.spent(0) == u);
        assert(b.squares.update(mov.from.index(), Some(u)) =~= b.squares);
        while k < move_distance
            invariant
                self.wf(),
                b.wf(),
                mov.from.valid(),
                b.piece_at(mov.from) == Some(u),
                u.action_tokens_left >= move_distance,
                k <= move_distance,
                self.board@.squares == b.squares.update(mov.from.index(), Some(u.spent(k as int))),
                self.board@.tiles == b.tiles,
                self.board@.effects == b.effects,
            decreases move_distance - k,
        {
            if !self.use_unit_action_token(mov.from) {
                return Err(EngineError::TokenConsumptionFailed);
            }
            k = k + 1;
            assert(self.board@.squares =~= b.squares.update(mov.from.index(), Some(u.spent(k as int))));
        }
        proof {
            assert(enterable(b, mov.to));
            assert(self.board@.piece_at(mov.from) == Some(u.spent(move_distance as int)));
            assert(self.board@.piece_at(mov.to) is None);
            assert(self.board@.terrain_at(mov.to) == b.terrain_at(mov.to));
        }
        match self.board.move_piece(mov.from, mov.to) {
            Ok(()) => {},
            Err(e) => {
                return Err(EngineError::MoveFailed(e));
            },
        }
        assert(self.board@.squares =~= after_move(b, mov, manhattan(mov.from, mov.to)));
        Ok(())
    }

    /// Get current board state.
    pub fn get_board(&self) -> (r: &Board)
        ensures
            *r == self.board(),
            r@ == self@,
    {
        &self.board
    }

    /// Get mutable board reference.
    pub fn get_board_mut(&mut self) -> (r: &mut Board)
        ensures
            *r == old(self).board(),
            final(self).board() == *final(r),
    {
        &mut self.board
    }

    /// Use an action token for the unit at the given position; false when no unit stands
    /// there or it has no token left.
    pub fn use_unit_action_token(&mut self, pos: Position) -> (r: bool)
        ensures
            final(self).wf(),
            final(self)@.tiles == old(self)@.tiles,
            final(self)@.effects == old(self)@.effects,
            old(self)@.piece_at(pos) is None ==> !r && final(self)@ == old(self)@,
            old(self)@.piece_at(pos) matches Some(u) ==> r == (u.action_tokens_left > 0)
                && final(self)@.squares == old(self)@.squares.update(
                pos.index(),
                Some(if r { u.spent(1) } else { u }),
            ),
    {
        proof {
            use_type_invariant(&self.board);
        }
        if self.board.get_piece(pos).is_none() {
            return false;
        }
        match self.board.take_piece(pos) {
            Some(unit) => {
                let mut unit = unit;
                let r = unit.use_action_token();
                self.board.place_piece(pos, unit);
                r
            },
            None => false,
        }
    }
}


/// The unit layer after the units of `player` start a new turn.
pub open spec fn refresh_player(s: Seq<Option<Unit>>, player: Player) -> Seq<Option<Unit>> {
    Seq::new(
        s.len(),
        |i: int|
            match s[i] {
                Some(u) => if u.player == player {
                    Some(u.refreshed())
                } else {
                    Some(u)
                },
                None => None,
            },
    )
}

/// The refreshed action tokens of every unit of `player` fit in a `u8`.
pub open spec fn refresh_fits(b: BoardView, player: Player) -> bool {
    forall|p: Position| #[trigger] b.holds_unit_of(p, player) ==> b.piece_at(p)->0.turn_tokens() < 256
}

/// The targets that the unit on `pos` can strike now; none when no unit stands there or it
/// cannot act.
pub open spec fn attack_targets_at(b: BoardView, pos: Position) -> Seq<Position> {
    match b.piece_at(pos) {
        Some(u) => if u.ready() {
            u.attack_targets(pos, b)
        } else {
            Seq::empty()
        },
        None => Seq::empty(),
    }
}

impl Engine {
    /// Refreshes the action tokens of every unit of `player`.
    fn refresh_units(&mut self, player: Player)
        requires
            old(self).wf(),
            refresh_fits(old(self)@, player),
        ensures
            final(self).wf(),
            final(self)@.squares == refresh_player(old(self)@.squares, player),
            final(self)@.tiles == old(self)@.tiles,
            final(self)@.effects == old(self)@.effects,
    {
        let ghost b = self.board@;
        let mut i: usize = 0;
        while i < 64
            invariant
                self.wf(),
                b.wf(),
                refresh_fits(b, player),
                i <= 64,
                forall|k: int| 0 <= k < i ==> #[trigger] self.board@.squares[k] == refresh_player(b.squares, player)[k],
                forall|k: int| i <= k < 64 ==> #[trigger] self.board@.squares[k] == b.squares[k],
                self.board@.tiles == b.tiles,
                self.board@.effects == b.effects,
            decreases 64 - i,
        {
            let p = Position { file: (i % 8) as u8, rank: (i / 8) as u8 };
            assert(p == square(i as int) && p.valid() && p.index() == i);
            let mine = match self.board.get_piece(p) {
                Some(unit) => unit.player == player,
                None => false,
            };
            if mine {
                assert(b.holds_unit_of(p, player));
                match self.board.take_piece(p) {
                    Some(unit) => {
                        let mut unit = unit;
                        unit.reset_action_tokens();
                        self.board.place_piece(p, unit);
                    },
                    None => {},
                }
            }
            i = i + 1;
        }
        assert(self.board@.squares =~= refresh_player(b.squares, player));
    }

    /// Reset action tokens for all units of a given player.
    pub fn reset_player_action_tokens(&mut self, player: Player)
        requires
            refresh_fits(old(self)@, player),
        ensures
            final(self).wf(),
            final(self)@.squares == refresh_player(old(self)@.squares, player),
            final(self)@.tiles == old(self)@.tiles,
            final(self)@.effects == old(self)@.effects,
    {
        proof {
            use_type_invariant(&self.board);
        }
        self.refresh_units(player);
    }

    /// Reset action tokens for all units of a given player at the start of their turn.
    pub fn reset_player_turn(&mut self, player: Player)
        requires
            refresh_fits(old(self)@, player),
        ensures
            final(self).wf(),
            final(self)@.squares == refresh_player(old(self)@.squares, player),
            final(self)@.tiles == old(self)@.tiles,
            final(self)@.effects == old(self)@.effects,
    {
        proof {
            use_type_invariant(&self.board);
        }
        self.refresh_units(player);
    }

    /// Get all possible attack targets for a unit at the given position.
    pub fn get_attack_targets(&self, pos: Position) -> (r: Vec<Position>)
        ensures
            r@ == attack_targets_at(self@, pos),
    {
        proof {
            use_type_invariant(&self.board);
        }
        match self.board.get_piece(pos) {
            Some(unit) => {
                if unit.can_attack() {
                    unit.get_attack_targets(pos, &self.board)
                } else {
                    Vec::new()
                }
            },
            None => Vec::new(),
        }
    }

    /// Execute an attack from one position to another: the attacker spends one action
    /// token, the target loses the attacker's damage in hit points, and is removed from the
    /// board when none are left.
    pub fn execute_attack(&mut self, attacker_pos: Position, target_pos: Position) -> (r: Result<AttackResult, EngineError>)
        ensures
            final(self).wf(),
            final(self)@.tiles == old(self)@.tiles,
            final(self)@.effects == old(self)@.effects,
            old(self)@.piece_at(attacker_pos) is None ==> r == Err::<AttackResult, EngineError>(EngineError::NoAttacker)
                && final(self)@ == old(self)@,
            old(self)@.piece_at(attacker_pos) is Some ==> {
                let u = old(self)@.piece_at(attacker_pos)->0;
                let t = old(self)@.piece_at(target_pos)->0;
                let destroyed = t.hit_points_after(u.attack_damage) == 0;
                &&& !u.ready() ==> r == Err::<AttackResult, EngineError>(EngineError::AttackerCannotAttack)
                    && final(self)@ == old(self)@
                &&& u.ready() && !u.attack_targets(attacker_pos, old(self)@).contains(target_pos)
                    ==> r == Err::<AttackResult, EngineError>(EngineError::InvalidTarget)
                    && final(self)@ == old(self)@
                &&& u.ready() && u.attack_targets(attacker_pos, old(self)@).contains(target_pos)
                    ==> r == Ok::<AttackResult, EngineError>(AttackResult {
                        damage_dealt: u.attack_damage,
                        target_destroyed: destroyed,
                        target_position: target_pos,
                    }) && final(self)@.squares == old(self)@.squares.update(
                        attacker_pos.index(),
                        Some(u.spent(1)),
                    ).update(
                        target_pos.index(),
                        if destroyed { None } else { Some(t.damaged(u.attack_damage)) },
                    )
            },
    {
        proof {
            use_type_invariant(&self.board);
        }
        let ghost b = self.board@;
        let attacker_damage = match self.board.get_piece(attacker_pos) {
            Some(attacker) => {
                if !attacker.can_attack() {
                    return Err(EngineError::AttackerCannotAttack);
                }
                let valid_targets = attacker.get_attack_targets(attacker_pos, &self.board);
                if !contains_position(&valid_targets, target_pos) {
                    return Err(EngineError::InvalidTarget);
                }
                attacker.attack_damage
            },
            None => {
                return Err(EngineError::NoAttacker);
            },
        };
        let ghost u = b.piece_at(attacker_pos)->0;
        proof {
            lemma_enemy_squares(b, crate::attack::attack_squares(u.attack_pattern, attacker_pos, None), u.player);
            let k = choose|k: int| 0 <= k < u.attack_targets(attacker_pos, b).len()
                && u.attack_targets(attacker_pos, b)[k] == target_pos;
            assert(b.holds_enemy_of(u.attack_targets(attacker_pos, b)[k], u.player));
            assert(b.holds_enemy_of(target_pos, u.player));
            assert(target_pos != attacker_pos);
        }
        let ghost t = b.piece_at(target_pos)->0;
        if !self.use_unit_action_token(attacker_pos) {
            return Err(EngineError::AttackTokenFailed);
        }
        let target_destroyed = match self.board.take_piece(target_pos) {
            Some(target) => {
                let mut target = target;
                let destroyed = target.take_damage(attacker_damage);
                if !destroyed {
                    self.board.place_piece(target_pos, target);
                }
                destroyed
            },
            None => {
                return Err(EngineError::NoTarget);
            },
        };
        assert(self.board@.squares =~= b.squares.update(attacker_pos.index(), Some(u.spent(1))).update(
            target_pos.index(),
            if target_destroyed { None } else { Some(t.damaged(u.attack_damage)) },
        ));
        Ok(AttackResult {
            damage_dealt: attacker_damage,
            target_destroyed,
            target_position: target_pos,
        })
    }

    /// Get all pieces for a given player, with copies of their units, in square order.
    pub fn get_player_pieces(&self, player: Player) -> (r: Vec<(Position, Unit)>)
        ensures
            r@.len() == player_positions(self@, player).len(),
            forall|k: int| 0 <= k < r@.len() ==> {
                &&& (#[trigger] r@[k]).0 == player_positions(self@, player)[k]
                &&& r@[k].1.same_as(self@.piece_at(r@[k].0)->0)
            },
    {
        proof {
            use_type_invariant(&self.board);
        }
        let mut r: Vec<(Position, Unit)> = Vec::new();
        let mut i: usize = 0;
        while i < 64
            invariant
                self.wf(),
                i <= 64,
                r@.len() == positions_of(self.board@, player, i as int).len(),
                forall|k: int| 0 <= k < r@.len() ==> {
                    &&& (#[trigger] r@[k]).0 == positions_of(self.board@, player, i as int)[k]
                    &&& r@[k].1.same_as(self.board@.piece_at(r@[k].0)->0)
                },
            decreases 64 - i,
        {
            let p = Position { file: (i % 8) as u8, rank: (i / 8) as u8 };
            assert(p == square(i as int));
            match self.board.get_piece(p) {
                Some(unit) => {
                    if unit.player == player {
                        r.push((p, unit.duplicate()));
                    }
                },
                None => {},
            }
            i = i + 1;
        }
        r
    }

    /// Get all positions for pieces of a given player, in square order.
    pub fn get_player_positions(&self, player: Player) -> (r: Vec<Position>)
        ensures
            r@ == player_positions(self@, player),
    {
        proof {
            use_type_invariant(&self.board);
        }
        let mut r: Vec<Position> = Vec::new();
        let mut i: usize = 0;
        while i < 64
            invariant
                self.wf(),
                i <= 64,
                r@ == positions_of(self.board@, player, i as int),
            decreases 64 - i,
        {
            let p = Position { file: (i % 8) as u8, rank: (i / 8) as u8 };
            assert(p == square(i as int));
            match self.board.get_piece(p) {
                Some(unit) => {
                    if unit.player == player {
                        r.push(p);
                    }
                },
                None => {},
            }
            i = i + 1;
        }
        r
    }

    /// Get unit at a given position.
    pub fn get_unit(&self, pos: Position) -> (r: Option<&Unit>)
        ensures
            refers_to(r, self@.piece_at(pos)),
    {
        proof {
            use_type_invariant(&self.board);
        }
        self.board.get_piece(pos)
    }

    /// Simple AI: a legal move for the computer player, picked for the first computer unit
    /// that has one by a hash of its square.
    pub fn get_computer_move(&self) -> (r: Option<Move>)
        ensures
            r == computer_move_from(self@, player_positions(self@, Player::Computer), 0),
    {
        proof {
            use_type_invariant(&self.board);
        }
        let computer_pieces = self.get_player_pieces(Player::Computer);
        let ghost units = player_positions(self.board@, Player::Computer);
        let mut k: usize = 0;
        while k < computer_pieces.len()
            invariant
                self.wf(),
                units == player_positions(self.board@, Player::Computer),
                computer_pieces@.len() == units.len(),
                forall|j: int| 0 <= j < units.len() ==> (#[trigger] computer_pieces@[j]).0 == units[j],
                k <= units.len(),
                computer_move_from(self.board@, units, 0) == computer_move_from(self.board@, units, k as int),
            decreases units.len() - k,
        {
            let pos = computer_pieces[k].0;
            let moves = self.get_legal_moves(pos);
            if moves.len() > 0 {
                let hash = hash_position(pos);
                let mov = pick_move(pos, &moves, hash);
                proof {
                    assert(moves@ == legal_moves(self.board@, units[k as int]));
                    assert(units[k as int] == pos);
                    assert(legal_moves(self.board@, units[k as int]).len() > 0);
                }
                return Some(mov);
            }
            k = k + 1;
        }
        None
    }

    /// Check if the game is over: one side has no pieces left.
    pub fn is_game_over(&self) -> (r: bool)
        ensures
            r == game_over(self@),
    {
        proof {
            use_type_invariant(&self.board);
        }
        let human_pieces = self.get_player_positions(Player::Human);
        let computer_pieces = self.get_player_positions(Player::Computer);
        human_pieces.len() == 0 || computer_pieces.len() == 0
    }
}

} // verus!
