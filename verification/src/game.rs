//! The game manager: the turn state machine between the player and the computer, the
//! player's selection, and the simple computer opponent.

use vstd::prelude::*;
use vstd::string::*;

use crate::board::{cell_terrain, cell_unit, map_cell, square_name, Board, BoardView, GameState};
use crate::engine::{
    apply_move, game_over, legal_moves, move_allowed, player_positions, positions_of,
    refresh_fits, refresh_player, Engine,
};
use crate::movement::manhattan;
use crate::position::{square, Move, Position};
use crate::unit::{Player, Unit};

verus! {

/// The map of the game that `GameManager::new` sets up, one line per rank from rank 1.
pub const TEST_MAP: &'static str = "G G M M T T G G\nS G G T G G G T\nS G G G G W G G\nS G G G G G G G\nS G G W G I W G\nG G G G G T G I\nG T D D G G G G\nT T D M M M M T";

/// What a game manager holds: the board, the turn, the selection and its legal moves,
/// and whether debug display is on.
#[verifier::ext_equal]
pub struct GameView {
    pub board: BoardView,
    pub state: GameState,
    pub selected: Option<Position>,
    pub moves: Seq<Position>,
    pub debug: bool,
}

/// What every game keeps: the board is well formed, every unit's tokens for a new turn fit
/// in a `u8`, and the selection is consistent.
pub open spec fn game_ok(v: GameView) -> bool {
    v.board.wf() && tokens_fit(v.board) && selection_consistent(v)
}

/// Whether a click on `pos` changes the selection, and the game after it. Outside the
/// player's turn nothing changes. Clicking a human unit selects it, or deselects it when it
/// is already selected; clicking another unit does nothing; clicking an empty square with
/// no selection does nothing; clicking an empty square that is no legal move of the
/// selected unit clears the selection; clicking one of its legal moves asks the engine for
/// the move, which clears the selection when it is made and changes nothing when the unit
/// lacks the tokens for it.
pub open spec fn after_select(v: GameView, pos: Position) -> (bool, GameView) {
    if v.state != GameState::PlayerTurn {
        (false, v)
    } else if v.board.holds_unit_of(pos, Player::Human) {
        if v.selected == Some(pos) {
            (true, GameView { selected: None, moves: Seq::empty(), ..v })
        } else {
            (true, GameView { selected: Some(pos), moves: legal_moves(v.board, pos), ..v })
        }
    } else if v.board.piece_at(pos) is Some || v.selected is None {
        (false, v)
    } else if !v.moves.contains(pos) {
        (true, GameView { selected: None, moves: Seq::empty(), ..v })
    } else {
        let mov = Move { from: v.selected->0, to: pos };
        if move_allowed(v.board, mov) {
            (true, after_player_move(v, mov))
        } else {
            (false, v)
        }
    }
}

/// The state of a game: the engine, the turn, the selection and the debug flag.
struct Game {
    /// The game engine that handles logic and move validation.
    engine: Engine,
    /// Current game state (whose turn, game over, etc.).
    game_state: GameState,
    /// Currently selected piece position (for the user interface).
    selected_piece: Option<Position>,
    /// Legal moves for the currently selected piece.
    legal_moves: Vec<Position>,
    /// Whether debug display is on.
    debug_mode: bool,
}

impl View for Game {
    type V = GameView;

    closed spec fn view(&self) -> GameView {
        GameView {
            board: self.engine@,
            state: self.game_state,
            selected: self.selected_piece,
            moves: self.legal_moves@,
            debug: self.debug_mode,
        }
    }
}

/// Squared Euclidean distance between two squares.
pub open spec fn dist2(a: Position, b: Position) -> int {
    (a.file - b.file) * (a.file - b.file) + (a.rank - b.rank) * (a.rank - b.rank)
}

/// The distance from `t` to the nearest of the first `n` squares of `hs` (100 when there are none).
pub open spec fn nearest(t: Position, hs: Seq<Position>, n: int) -> int
    decreases n,
{
    if n <= 0 {
        100
    } else {
        let rest = nearest(t, hs, n - 1);
        if dist2(t, hs[n - 1]) < rest {
            dist2(t, hs[n - 1])
        } else {
            rest
        }
    }
}

/// Squared distances between squares lie in 0..=98, so the nearest distance lies in 0..=100.
proof fn lemma_nearest_bounds(t: Position, hs: Seq<Position>, n: int)
    requires
        t.valid(),
        forall|k: int| 0 <= k < hs.len() ==> (#[trigger] hs[k]).valid(),
        n <= hs.len(),
    ensures
        0 <= nearest(t, hs, n) <= 100,
    decreases n,
{
    if n > 0 {
        lemma_nearest_bounds(t, hs, n - 1);
        let h = hs[n - 1];
        assert(h.valid());
        let dx = t.file - h.file;
        let dy = t.rank - h.rank;
        assert(0 <= dx * dx && 0 <= dy * dy) by (nonlinear_arith);
    }
}

/// The first of the first `n` targets (n >= 1) that lies nearest to any of `hs`.
pub open spec fn closest(ts: Seq<Position>, hs: Seq<Position>, n: int) -> Position
    decreases n,
{
    if n <= 1 {
        ts[0]
    } else {
        let before = closest(ts, hs, n - 1);
        if nearest(ts[n - 1], hs, hs.len() as int) < nearest(before, hs, hs.len() as int) {
            ts[n - 1]
        } else {
            before
        }
    }
}

/// With at least one square, the nearest distance is the least distance to one of them.
pub(crate) proof fn lemma_nearest_is_least(t: Position, hs: Seq<Position>, n: int)
    requires
        t.valid(),
        forall|k: int| 0 <= k < hs.len() ==> (#[trigger] hs[k]).valid(),
        0 < n <= hs.len(),
    ensures
        forall|k: int| 0 <= k < n ==> nearest(t, hs, n) <= #[trigger] dist2(t, hs[k]),
        exists|k: int| 0 <= k < n && nearest(t, hs, n) == #[trigger] dist2(t, hs[k]),
    decreases n,
{
    let h = hs[n - 1];
    assert(h.valid());
    let dx = t.file - h.file;
    let dy = t.rank - h.rank;
    assert(dx * dx <= 49 && dy * dy <= 49) by (nonlinear_arith)
        requires
            -7 <= dx <= 7,
            -7 <= dy <= 7,
    ;
    assert(dist2(t, h) <= 98);
    if n > 1 {
        lemma_nearest_is_least(t, hs, n - 1);
        let k0 = choose|k: int| 0 <= k < n - 1 && nearest(t, hs, n - 1) == #[trigger] dist2(t, hs[k]);
        if dist2(t, h) < nearest(t, hs, n - 1) {
            assert(nearest(t, hs, n) == dist2(t, hs[n - 1]));
        } else {
            assert(nearest(t, hs, n) == dist2(t, hs[k0]));
        }
    } else {
        assert(nearest(t, hs, 1) == dist2(t, hs[0]));
    }
}

/// The closest of the first `n` targets is no farther from the squares than any of them.
pub(crate) proof fn lemma_closest_is_nearest(ts: Seq<Position>, hs: Seq<Position>, n: int)
    requires
        1 <= n <= ts.len(),
    ensures
        forall|k: int|
            0 <= k < n ==> nearest(closest(ts, hs, n), hs, hs.len() as int) <= nearest(
                #[trigger] ts[k],
                hs,
                hs.len() as int,
            ),
    decreases n,
{
    if n > 1 {
        lemma_closest_is_nearest(ts, hs, n - 1);
    }
}

/// The closest of the first `n` targets is the first of those nearest to the squares: every
/// target before it is strictly farther.
pub(crate) proof fn lemma_closest_first(ts: Seq<Position>, hs: Seq<Position>, n: int)
    requires
        1 <= n <= ts.len(),
    ensures
        exists|j: int|
            0 <= j < n && ts[j] == closest(ts, hs, n) && forall|k: int|
                0 <= k < j ==> nearest(#[trigger] ts[k], hs, hs.len() as int) > nearest(ts[j], hs, hs.len() as int),
    decreases n,
{
    if n > 1 {
        lemma_closest_first(ts, hs, n - 1);
        lemma_closest_is_nearest(ts, hs, n - 1);
        let before = closest(ts, hs, n - 1);
        let j0 = choose|j: int|
            0 <= j < n - 1 && ts[j] == before && forall|k: int|
                0 <= k < j ==> nearest(#[trigger] ts[k], hs, hs.len() as int) > nearest(ts[j], hs, hs.len() as int);
        if nearest(ts[n - 1], hs, hs.len() as int) < nearest(before, hs, hs.len() as int) {
            assert(ts[n - 1] == closest(ts, hs, n));
        } else {
            assert(ts[j0] == closest(ts, hs, n));
        }
    } else {
        assert(ts[0] == closest(ts, hs, 1));
    }
}

/// The closest target is one of the targets.
pub(crate) proof fn lemma_closest_in(ts: Seq<Position>, hs: Seq<Position>, n: int)
    requires
        1 <= n <= ts.len(),
    ensures
        exists|k: int| 0 <= k < n && ts[k] == closest(ts, hs, n),
    decreases n,
{
    if n > 1 {
        lemma_closest_in(ts, hs, n - 1);
        if nearest(ts[n - 1], hs, hs.len() as int) < nearest(closest(ts, hs, n - 1), hs, hs.len() as int) {
            assert(ts[n - 1] == closest(ts, hs, n));
        } else {
            let k = choose|k: int| 0 <= k < n - 1 && ts[k] == closest(ts, hs, n - 1);
            assert(ts[k] == closest(ts, hs, n));
        }
    } else {
        assert(ts[0] == closest(ts, hs, n));
    }
}

/// The move of the simple computer player for the unit on `pos`: towards the nearest
/// human unit, to the first legal square when there is none; no move without legal moves.
pub open spec fn ai_move(b: BoardView, pos: Position) -> Option<Move> {
    let moves = legal_moves(b, pos);
    let humans = player_positions(b, Player::Human);
    if moves.len() == 0 {
        None
    } else if humans.len() == 0 {
        Some(Move { from: pos, to: moves[0] })
    } else {
        Some(Move { from: pos, to: closest(moves, humans, moves.len() as int) })
    }
}

/// The board after the computer's units on the first `n` of `units` have made their moves,
/// one after the other.
pub open spec fn computer_turn(b: BoardView, units: Seq<Position>, n: int) -> BoardView
    decreases n,
{
    if n <= 0 {
        b
    } else {
        let before = computer_turn(b, units, n - 1);
        match ai_move(before, units[n - 1]) {
            Some(m) => apply_move(before, m),
            None => before,
        }
    }
}

/// The state that follows a turn, given the board after it.
pub open spec fn next_state(b: BoardView, otherwise: GameState) -> GameState {
    if game_over(b) {
        GameState::GameOver
    } else {
        otherwise
    }
}

/// A unit is selected only during the player's turn, it is a human unit, and the moves on
/// display are its legal moves; with no selection no moves are on display.
pub open spec fn selection_consistent(v: GameView) -> bool {
    match v.selected {
        Some(p) => v.state == GameState::PlayerTurn && v.board.holds_unit_of(p, Player::Human) && v.moves
            == legal_moves(v.board, p),
        None => v.moves.len() == 0,
    }
}

/// Every unit's action tokens for a new turn fit in a `u8`.
pub open spec fn tokens_fit(b: BoardView) -> bool {
    forall|p: Position| #[trigger] b.piece_at(p) is Some ==> b.piece_at(p)->0.turn_tokens() < 256
}

/// The board after the units of `player` start a new turn with full action tokens.
pub open spec fn refresh(b: BoardView, player: Player) -> BoardView {
    BoardView { squares: refresh_player(b.squares, player), ..b }
}

/// No unit of `player` has an action token left.
pub open spec fn exhausted(b: BoardView, player: Player) -> bool {
    forall|p: Position| #[trigger] b.holds_unit_of(p, player) ==> b.piece_at(p)->0.action_tokens_left == 0
}

/// Some unit of `player` can still make a move that the engine carries out.
pub open spec fn can_still_move(b: BoardView, player: Player) -> bool {
    exists|m: Move| #[trigger] move_allowed(b, m) && b.holds_unit_of(m.from, player)
}

/// The game after the player's unit makes the allowed move `mov`: the selection is cleared,
/// and the turn passes to the computer once no human unit has an action token left.
pub open spec fn after_player_move(v: GameView, mov: Move) -> GameView {
    let after = apply_move(v.board, mov);
    GameView {
        board: after,
        state: next_state(
            after,
            if exhausted(after, Player::Human) {
                GameState::ComputerTurn
            } else {
                GameState::PlayerTurn
            },
        ),
        selected: None,
        moves: Seq::empty(),
        ..v
    }
}

/// The board after the computer's turn on `b`: its units get full action tokens, then each
/// of them, in square order, makes the move of the simple computer player.
pub open spec fn after_computer_turn(b: BoardView) -> BoardView {
    let start = refresh(b, Player::Computer);
    let units = player_positions(start, Player::Computer);
    computer_turn(start, units, units.len() as int)
}

/// The game after the computer's turn: over when a side has no unit left, else the player's
/// turn, with full action tokens for the human units.
pub open spec fn after_computer(v: GameView) -> GameView {
    let after = after_computer_turn(v.board);
    if game_over(after) {
        GameView { board: after, state: GameState::GameOver, ..v }
    } else {
        GameView { board: refresh(after, Player::Human), state: GameState::PlayerTurn, ..v }
    }
}

/// A move keeps the board well formed and every unit's tokens in range.
pub(crate) proof fn lemma_apply_move_keeps(b: BoardView, mov: Move)
    requires
        b.wf(),
        tokens_fit(b),
    ensures
        apply_move(b, mov).wf(),
        tokens_fit(apply_move(b, mov)),
{
    let a = apply_move(b, mov);
    if move_allowed(b, mov) {
        assert forall|p: Position| #[trigger] a.piece_at(p) is Some implies a.piece_at(p)->0.turn_tokens() < 256 by {
            if p.index() == mov.to.index() {
                assert(b.piece_at(mov.from) is Some);
            } else if p.index() != mov.from.index() {
                assert(a.piece_at(p) == b.piece_at(p));
            }
        }
    }
}

/// A new turn keeps the board well formed and every unit's tokens in range.
pub(crate) proof fn lemma_refresh_keeps(b: BoardView, player: Player)
    requires
        b.wf(),
        tokens_fit(b),
    ensures
        refresh(b, player).wf(),
        tokens_fit(refresh(b, player)),
        refresh_fits(b, player),
        player_positions(refresh(b, player), Player::Computer) == player_positions(b, Player::Computer),
        player_positions(refresh(b, player), Player::Human) == player_positions(b, Player::Human),
{
    let a = refresh(b, player);
    assert forall|p: Position| #[trigger] a.piece_at(p) is Some implies a.piece_at(p)->0.turn_tokens() < 256 by {
        assert(b.piece_at(p) is Some);
    }
    assert forall|p: Position| #[trigger] b.holds_unit_of(p, player) implies b.piece_at(p)->0.turn_tokens() < 256 by {
        assert(b.piece_at(p) is Some);
    }
    lemma_refresh_positions(b, player, Player::Computer, 64);
    lemma_refresh_positions(b, player, Player::Human, 64);
}

/// A new turn moves no unit.
proof fn lemma_refresh_positions(b: BoardView, player: Player, owner: Player, n: int)
    requires
        b.wf(),
        0 <= n <= 64,
    ensures
        positions_of(refresh(b, player), owner, n) == positions_of(b, owner, n),
    decreases n,
{
    if n > 0 {
        lemma_refresh_positions(b, player, owner, n - 1);
        let q = square(n - 1);
        assert(q.valid() && q.index() == n - 1);
        assert(refresh(b, player).holds_unit_of(q, owner) == b.holds_unit_of(q, owner));
    }
}

/// The computer's moves keep the board well formed and every unit's tokens in range.
pub(crate) proof fn lemma_computer_turn_keeps(b: BoardView, units: Seq<Position>, n: int)
    requires
        b.wf(),
        tokens_fit(b),
    ensures
        computer_turn(b, units, n).wf(),
        tokens_fit(computer_turn(b, units, n)),
    decreases n,
{
    if n > 0 {
        lemma_computer_turn_keeps(b, units, n - 1);
        let before = computer_turn(b, units, n - 1);
        match ai_move(before, units[n - 1]) {
            Some(m) => lemma_apply_move_keeps(before, m),
            None => {},
        }
    }
}

/// The status line for a state.
pub open spec fn status_text(state: GameState, selected: bool) -> Seq<char> {
    match state {
        GameState::PlayerTurn => if selected {
            "Player turn - Piece selected, click to move"@
        } else {
            "Player turn - Select a piece to move"@
        },
        GameState::GameOver => "Game Over!"@,
        _ => "Computer is thinking..."@,
    }
}

/// Squared distance between two squares.
fn distance_squared(a: Position, b: Position) -> (r: u32)
    requires
        a.valid(),
        b.valid(),
    ensures
        r == dist2(a, b),
        r <= 98,
{
    let dx: i32 = a.file as i32 - b.file as i32;
    let dy: i32 = a.rank as i32 - b.rank as i32;
    assert(0 <= dx * dx <= 49) by (nonlinear_arith)
        requires
            -7 <= dx <= 7,
    ;
    assert(0 <= dy * dy <= 49) by (nonlinear_arith)
        requires
            -7 <= dy <= 7,
    ;
    (dx * dx + dy * dy) as u32
}

impl Game {
    /// The board is well formed, every unit's tokens for a new turn fit in a `u8`, and the
    /// selection is consistent.
    spec fn wf(self) -> bool {
        game_ok(self@)
    }

    /// A new game on the test map, with two mechs and two leapers.
    fn new() -> (r: Self)
        ensures
            r.wf(),
            r@.state == GameState::PlayerTurn,
            r@.selected is None,
            r@.moves.len() == 0,
            !r@.debug,
            forall|p: Position| #[trigger] p.valid() ==> r@.board.terrain_at(p) == cell_terrain(map_cell(TEST_MAP@, p)),
            forall|i: int| 0 <= i < 64 ==> (#[trigger] r@.board.effects[i]).len() == 0,
            forall|p: Position| #[trigger] p.valid() ==> {
                let u = r@.board.piece_at(p);
                if p == (Position { file: 1, rank: 1 }) || p == (Position { file: 2, rank: 2 }) {
                    u matches Some(x) && x.is_new_mech("Pilot-"@ + p.notation())
                } else if p == (Position { file: 5, rank: 5 }) || p == (Position { file: 7, rank: 6 }) {
                    u matches Some(x) && x.is_new_leaper("Enemy-"@ + p.notation())
                } else {
                    cell_unit(map_cell(TEST_MAP@, p), p, u)
                }
            },
    {
        let mut board = Board::from_map_string(TEST_MAP);
        // A few mechs for the player, on b2 and c3.
        let b2 = Position { file: 1, rank: 1 };
        board.place_piece(b2, Unit::new_mech(square_name("Pilot-", b2)));
        let c3 = Position { file: 2, rank: 2 };
        board.place_piece(c3, Unit::new_mech(square_name("Pilot-", c3)));
        // Some leapers for the computer, on f6 and h7.
        let f6 = Position { file: 5, rank: 5 };
        board.place_piece(f6, Unit::new_leaper(square_name("Enemy-", f6)));
        let h7 = Position { file: 7, rank: 6 };
        board.place_piece(h7, Unit::new_leaper(square_name("Enemy-", h7)));
        let engine = Engine::new(board);
        let r = Self {
            engine,
            game_state: GameState::PlayerTurn,
            selected_piece: None,
            legal_moves: Vec::new(),
            debug_mode: false,
        };
        proof {
            assert forall|p: Position| #[trigger] p.valid() implies {
                let u = r@.board.piece_at(p);
                if p == (Position { file: 1, rank: 1 }) || p == (Position { file: 2, rank: 2 }) {
                    u matches Some(x) && x.is_new_mech("Pilot-"@ + p.notation())
                } else if p == (Position { file: 5, rank: 5 }) || p == (Position { file: 7, rank: 6 }) {
                    u matches Some(x) && x.is_new_leaper("Enemy-"@ + p.notation())
                } else {
                    cell_unit(map_cell(TEST_MAP@, p), p, u)
                }
            } by {
                assert(p.index() == b2.index() ==> p == b2);
                assert(p.index() == c3.index() ==> p == c3);
                assert(p.index() == f6.index() ==> p == f6);
                assert(p.index() == h7.index() ==> p == h7);
            }
        }
        r
    }

    /// Get current board state.
    fn get_board(&self) -> (r: &Board)
        ensures
            r@ == self@.board,
    {
        self.engine.get_board()
    }

    /// Get the engine.
    fn get_engine(&self) -> (r: &Engine)
        ensures
            r@ == self@.board,
    {
        &self.engine
    }

    /// Get current game state.
    fn get_game_state(&self) -> (r: GameState)
        ensures
            r == self@.state,
    {
        self.game_state
    }

    /// Get currently selected piece.
    fn get_selected_piece(&self) -> (r: Option<Position>)
        ensures
            r == self@.selected,
    {
        self.selected_piece
    }

    /// Get legal moves for selected piece.
    fn get_legal_moves(&self) -> (r: &[Position])
        ensures
            r@ == self@.moves,
    {
        self.legal_moves.as_slice()
    }

    /// Check if in debug mode.
    fn is_debug_mode(&self) -> (r: bool)
        ensures
            r == self@.debug,
    {
        self.debug_mode
    }
}


impl Game {
    /// Handle piece selection from the user interface during the player's turn; returns
    /// true if the selection changed.
    ///
    /// Clicking a human unit selects it (or deselects it when it is already selected);
    /// clicking an empty legal destination of the selected unit asks the engine to move it
    /// there, which clears the selection (the turn passes to the computer once no human unit
    /// has an action token left), while a move that the engine refuses for want of tokens
    /// changes nothing; clicking any other empty square clears the selection.
    fn select_piece(&mut self, pos: Position) -> (r: bool)
        requires
            old(self).wf(),
        ensures
            final(self).wf(),
            (r, final(self)@) == after_select(old(self)@, pos),
    {
        // Only allow selection during the player's turn.
        if self.game_state != GameState::PlayerTurn {
            return false;
        }
        let (occupied, human) = match self.engine.get_unit(pos) {
            Some(piece) => (true, piece.player == Player::Human),
            None => (false, false),
        };
        if occupied {
            // Only allow selecting human player pieces.
            if human {
                if self.selected_piece == Some(pos) {
                    // Clicking on the already selected piece deselects it.
                    self.selected_piece = None;
                    self.legal_moves.clear();
                    return true;
                } else {
                    // Select the new piece and calculate its legal moves.
                    self.selected_piece = Some(pos);
                    self.legal_moves = self.engine.get_legal_moves(pos);
                    return true;
                }
            }
        } else {
            // Clicked on an empty square: try to move the selected piece there.
            if let Some(selected_pos) = self.selected_piece {
                if self.moves_contain(pos) {
                    // A move clears the selection; a refused one leaves the game as it was.
                    return match self.make_move(selected_pos, pos) {
                        Ok(()) => true,
                        Err(_) => false,
                    };
                }
            }
            // Clear the selection when clicking on any other square.
            if self.selected_piece.is_some() {
                self.selected_piece = None;
                self.legal_moves.clear();
                return true;
            }
        }
        false
    }

    /// Whether the legal moves of the selection hold `pos`.
    fn moves_contain(&self, pos: Position) -> (r: bool)
        ensures
            r == self@.moves.contains(pos),
    {
        let mut i: usize = 0;
        while i < self.legal_moves.len()
            invariant
                i <= self.legal_moves@.len(),
                forall|k: int| 0 <= k < i ==> self.legal_moves@[k] != pos,
            decreases self.legal_moves@.len() - i,
        {
            if self.legal_moves[i] == pos {
                return true;
            }
            i = i + 1;
        }
        false
    }

    /// Make a move and update the game state: after the move the selection is cleared, and
    /// the turn passes to the computer once every human unit has spent its action tokens,
    /// unless the game is over.
    fn make_move(&mut self, from: Position, to: Position) -> (r: Result<(), crate::engine::EngineError>)
        requires
            old(self).wf(),
        ensures
            final(self).wf(),
            r is Ok <==> move_allowed(old(self)@.board, Move { from, to }),
            final(self)@ == (if r is Ok {
                after_player_move(old(self)@, Move { from, to })
            } else {
                old(self)@
            }),
    {
        let mov = Move::new(from, to);
        let ghost before = self@.board;
        match self.engine.make_move(mov) {
            Ok(()) => {},
            Err(e) => {
                return Err(e);
            },
        }
        proof {
            lemma_apply_move_keeps(before, mov);
        }
        // Clear selection.
        self.selected_piece = None;
        self.legal_moves.clear();
        // Check if the game is over, else end the turn when the units are out of tokens.
        if self.engine.is_game_over() {
            self.game_state = GameState::GameOver;
        } else if self.player_exhausted(Player::Human) {
            self.game_state = GameState::ComputerTurn;
        } else {
            self.game_state = GameState::PlayerTurn;
        }
        Ok(())
    }

    /// Whether no unit of `player` has an action token left.
    fn player_exhausted(&self, player: Player) -> (r: bool)
        requires
            self.wf(),
        ensures
            r == exhausted(self@.board, player),
    {
        let units = self.engine.get_player_positions(player);
        let ghost b = self@.board;
        proof {
            crate::engine::lemma_positions_of(b, player, 64);
        }
        let mut i: usize = 0;
        while i < units.len()
            invariant
                self.wf(),
                b == self@.board,
                units@ == player_positions(b, player),
                forall|k: int| 0 <= k < units@.len() ==> b.holds_unit_of(#[trigger] units@[k], player),
                i <= units@.len(),
                forall|k: int| 0 <= k < i ==> b.piece_at(#[trigger] units@[k])->0.action_tokens_left == 0,
            decreases units@.len() - i,
        {
            match self.engine.get_unit(units[i]) {
                Some(unit) => {
                    if unit.action_tokens_left > 0 {
                        return false;
                    }
                },
                None => {},
            }
            i = i + 1;
        }
        proof {
            assert forall|p: Position| #[trigger] b.holds_unit_of(p, player) implies b.piece_at(p)->0.action_tokens_left == 0 by {
                assert(p.valid());
                assert(player_positions(b, player).contains(p));
                let k = choose|k: int| 0 <= k < units@.len() && units@[k] == p;
                assert(b.piece_at(units@[k])->0.action_tokens_left == 0);
            }
        }
        true
    }

    /// Whether some human unit can still make a move that the engine carries out.
    fn player_has_legal_moves(&self) -> (r: bool)
        requires
            self.wf(),
        ensures
            r == can_still_move(self@.board, Player::Human),
    {
        let units = self.engine.get_player_positions(Player::Human);
        let ghost b = self@.board;
        proof {
            crate::engine::lemma_positions_of(b, Player::Human, 64);
        }
        let mut i: usize = 0;
        while i < units.len()
            invariant
                self.wf(),
                b == self@.board,
                units@ == player_positions(b, Player::Human),
                forall|k: int| 0 <= k < units@.len() ==> b.holds_unit_of(#[trigger] units@[k], Player::Human),
                forall|k: int| 0 <= k < units@.len() ==> (#[trigger] units@[k]).valid(),
                i <= units@.len(),
                forall|k: int, q: Position|
                    0 <= k < i && #[trigger] legal_moves(b, units@[k]).contains(q) ==> manhattan(units@[k], q)
                        > b.piece_at(units@[k])->0.action_tokens_left,
            decreases units@.len() - i,
        {
            let pos = units[i];
            let tokens: u8 = match self.engine.get_unit(pos) {
                Some(unit) => unit.action_tokens_left,
                None => 0,
            };
            let moves = self.engine.get_legal_moves(pos);
            proof {
                crate::movement::lemma_squares_within(b, pos, 3, 64);
            }
            let mut j: usize = 0;
            while j < moves.len()
                invariant
                    b == self@.board,
                    moves@ == legal_moves(b, pos),
                    b.holds_unit_of(pos, Player::Human),
                    pos.valid(),
                    tokens == b.piece_at(pos)->0.action_tokens_left,
                    forall|k: int| 0 <= k < moves@.len() ==> (#[trigger] moves@[k]).valid(),
                    j <= moves@.len(),
                    forall|k: int| 0 <= k < j ==> manhattan(pos, #[trigger] moves@[k]) > tokens,
                decreases moves@.len() - j,
            {
                let target = moves[j];
                if self.engine.calculate_move_distance(pos, target) <= tokens {
                    proof {
                        crate::movement::lemma_squares_within(b, pos, 3, 64);
                        assert(moves@[j as int] == target);
                        assert(moves@.contains(target));
                        let m = Move { from: pos, to: target };
                        assert(move_allowed(b, m) && b.holds_unit_of(m.from, Player::Human));
                        assert(can_still_move(b, Player::Human));
                    }
                    return true;
                }
                j = j + 1;
            }
            proof {
                assert forall|q: Position| #[trigger] legal_moves(b, pos).contains(q) implies manhattan(pos, q) > tokens by {
                    let k = choose|k: int| 0 <= k < moves@.len() && moves@[k] == q;
                    assert(manhattan(pos, moves@[k]) > tokens);
                }
            }
            i = i + 1;
        }
        proof {
            assert forall|m: Move| #[trigger] move_allowed(b, m) && b.holds_unit_of(m.from, Player::Human) implies false by {
                assert(player_positions(b, Player::Human).contains(m.from));
                let k = choose|k: int| 0 <= k < units@.len() && units@[k] == m.from;
                crate::movement::lemma_squares_within(b, m.from, 3, 64);
                assert(legal_moves(b, units@[k]).contains(m.to));
            }
        }
        false
    }

    /// End the player's turn by choice: the selection is cleared and the computer plays.
    /// Outside the player's turn nothing changes.
    fn end_player_turn(&mut self)
        requires
            old(self).wf(),
        ensures
            final(self).wf(),
            old(self)@.state == GameState::PlayerTurn ==> final(self)@ == (GameView {
                state: GameState::ComputerTurn,
                selected: None,
                moves: Seq::empty(),
                ..old(self)@
            }),
            old(self)@.state != GameState::PlayerTurn ==> final(self)@ == old(self)@,
    {
        if self.game_state == GameState::PlayerTurn {
            self.selected_piece = None;
            self.legal_moves.clear();
            self.game_state = GameState::ComputerTurn;
        }
    }

    /// Process the computer's turn: the computer's units get full action tokens, and each
    /// of them, in square order, makes the move of the simple computer player; then the turn
    /// passes back to the player, whose units get full action tokens, unless the game is
    /// over. Returns true if the game state changed.
    fn process_computer_turn(&mut self) -> (r: bool)
        requires
            old(self).wf(),
        ensures
            final(self).wf(),
            r == (old(self)@.state == GameState::ComputerTurn),
            !r ==> final(self)@ == old(self)@,
            r ==> final(self)@ == after_computer(old(self)@),
    {
        if self.game_state != GameState::ComputerTurn {
            return false;
        }
        let ghost first = self@;
        proof {
            lemma_refresh_keeps(first.board, Player::Computer);
        }
        // Every computer unit starts its turn with full action tokens.
        self.engine.reset_player_turn(Player::Computer);
        assert(self@.board =~= refresh(first.board, Player::Computer));
        let ghost start = self@;
        let ghost units = player_positions(start.board, Player::Computer);
        // Get all computer pieces and try to move them.
        let computer_pieces = self.engine.get_player_pieces(Player::Computer);
        let mut k: usize = 0;
        while k < computer_pieces.len()
            invariant
                self.wf(),
                start.board.wf(),
                tokens_fit(start.board),
                start.selected is None,
                start.moves.len() == 0,
                computer_pieces@.len() == units.len(),
                forall|j: int| 0 <= j < units.len() ==> (#[trigger] computer_pieces@[j]).0 == units[j],
                k <= units.len(),
                self@ == (GameView { board: computer_turn(start.board, units, k as int), ..start }),
            decreases units.len() - k,
        {
            let pos = computer_pieces[k].0;
            let ghost before = self@.board;
            match self.simple_ai_move(pos) {
                Some(computer_move) => {
                    // A refused move leaves the board as it was.
                    let _ = self.engine.make_move(computer_move);
                    proof {
                        lemma_apply_move_keeps(before, computer_move);
                    }
                },
                None => {},
            }
            k = k + 1;
        }
        if self.engine.is_game_over() {
            self.game_state = GameState::GameOver;
        } else {
            let ghost after = self@.board;
            proof {
                lemma_refresh_keeps(after, Player::Human);
            }
            // The player's units start the new turn with full action tokens.
            self.engine.reset_player_turn(Player::Human);
            assert(self@.board =~= refresh(after, Player::Human));
            self.game_state = GameState::PlayerTurn;
        }
        true
    }

    /// Simple AI: the move for the unit on `pos`, towards the nearest human unit.
    fn simple_ai_move(&self, pos: Position) -> (r: Option<Move>)
        requires
            self.wf(),
        ensures
            r == ai_move(self@.board, pos),
    {
        let moves = self.engine.get_legal_moves(pos);
        if moves.len() == 0 {
            return None;
        }
        let humans = self.engine.get_player_positions(Player::Human);
        let ghost b = self@.board;
        proof {
            crate::movement::lemma_squares_within(b, pos, 3, 64);
            crate::engine::lemma_positions_of(b, Player::Human, 64);
        }
        if humans.len() == 0 {
            return Some(Move::new(pos, moves[0]));
        }
        // Find the move that gets closest to a human piece.
        let mut best: Option<Move> = None;
        let mut best_distance: u32 = u32::MAX;
        let mut i: usize = 0;
        while i < moves.len()
            invariant
                moves@ == legal_moves(b, pos),
                humans@ == player_positions(b, Player::Human),
                humans@.len() > 0,
                forall|k: int| 0 <= k < moves@.len() ==> (#[trigger] moves@[k]).valid(),
                forall|k: int| 0 <= k < humans@.len() ==> (#[trigger] humans@[k]).valid(),
                i <= moves@.len(),
                i == 0 ==> best is None && best_distance == u32::MAX,
                i > 0 ==> best == Some(Move { from: pos, to: closest(moves@, humans@, i as int) })
                    && best_distance == nearest(closest(moves@, humans@, i as int), humans@, humans@.len() as int),
            decreases moves@.len() - i,
        {
            let target = moves[i];
            proof {
                lemma_nearest_bounds(target, humans@, humans@.len() as int);
                if i > 0 {
                    lemma_closest_in(moves@, humans@, i as int);
                    let k = choose|k: int| 0 <= k < i && moves@[k] == closest(moves@, humans@, i as int);
                    assert(moves@[k].valid());
                    lemma_nearest_bounds(closest(moves@, humans@, i as int), humans@, humans@.len() as int);
                }
            }
            let ghost best_before = best;
            let ghost dist_before = best_distance;
            let mut j: usize = 0;
            while j < humans.len()
                invariant
                    humans@.len() > 0,
                    forall|k: int| 0 <= k < humans@.len() ==> (#[trigger] humans@[k]).valid(),
                    target.valid(),
                    j <= humans@.len(),
                    dist_before <= 100 || dist_before == u32::MAX,
                    j == 0 ==> best == best_before && best_distance == dist_before,
                    j > 0 ==> best_distance == (if nearest(target, humans@, j as int) < dist_before {
                        nearest(target, humans@, j as int)
                    } else {
                        dist_before as int
                    }),
                    j > 0 ==> best == (if nearest(target, humans@, j as int) < dist_before {
                        Some(Move { from: pos, to: target })
                    } else {
                        best_before
                    }),
                decreases humans@.len() - j,
            {
                let distance = distance_squared(target, humans[j]);
                proof {
                    lemma_nearest_bounds(target, humans@, j as int);
                }
                if distance < best_distance {
                    best_distance = distance;
                    best = Some(Move::new(pos, target));
                }
                assert(nearest(target, humans@, j + 1) == (if dist2(target, humans@[j as int]) < nearest(
                    target,
                    humans@,
                    j as int,
                ) {
                    dist2(target, humans@[j as int])
                } else {
                    nearest(target, humans@, j as int)
                }));
                j = j + 1;
            }
            i = i + 1;
        }
        best
    }

    /// Get a status message for the user interface.
    fn get_status_message(&self) -> (r: String)
        ensures
            r@ == status_text(self@.state, self@.selected is Some),
    {
        match self.game_state {
            GameState::PlayerTurn => {
                if self.selected_piece.is_some() {
                    String::from_str("Player turn - Piece selected, click to move")
                } else {
                    String::from_str("Player turn - Select a piece to move")
                }
            },
            GameState::GameOver => String::from_str("Game Over!"),
            _ => String::from_str("Computer is thinking..."),
        }
    }
}


/// Main game state manager that orchestrates between the user interfaces and the engine.
/// Implements the state machine pattern for turn management.
pub struct GameManager {
    game: Game,
}

impl View for GameManager {
    type V = GameView;

    closed spec fn view(&self) -> GameView {
        self.game@
    }
}

impl GameManager {
    /// Every game manager keeps `game_ok`.
    #[verifier::type_invariant]
    spec fn keeps_game_ok(self) -> bool {
        self.game.wf()
    }

    /// A game that the manager holds while it works on its own: an empty board, the
    /// player's turn and nothing selected.
    fn placeholder() -> (r: Game)
        ensures
            r.wf(),
    {
        let board = Board::blank();
        let r = Game {
            engine: Engine::new(board),
            game_state: GameState::PlayerTurn,
            selected_piece: None,
            legal_moves: Vec::new(),
            debug_mode: false,
        };
        proof {
            assert forall|p: Position| #[trigger] r@.board.piece_at(p) is Some implies r@.board.piece_at(p)->0.turn_tokens() < 256 by {
                assert(r@.board.squares[p.index()] is None);
            }
        }
        r
    }

    /// Create new game manager with the test map, two mechs for the player on b2 and c3
    /// and two leapers for the computer on f6 and h7.
    pub fn new() -> (r: Self)
        ensures
            game_ok(r@),
            r@.state == GameState::PlayerTurn,
            r@.selected is None,
            r@.moves.len() == 0,
            !r@.debug,
            forall|p: Position| #[trigger] p.valid() ==> r@.board.terrain_at(p) == cell_terrain(map_cell(TEST_MAP@, p)),
            forall|i: int| 0 <= i < 64 ==> (#[trigger] r@.board.effects[i]).len() == 0,
            forall|p: Position| #[trigger] p.valid() ==> {
                let u = r@.board.piece_at(p);
                if p == (Position { file: 1, rank: 1 }) || p == (Position { file: 2, rank: 2 }) {
                    u matches Some(x) && x.is_new_mech("Pilot-"@ + p.notation())
                } else if p == (Position { file: 5, rank: 5 }) || p == (Position { file: 7, rank: 6 }) {
                    u matches Some(x) && x.is_new_leaper("Enemy-"@ + p.notation())
                } else {
                    cell_unit(map_cell(TEST_MAP@, p), p, u)
                }
            },
    {
        GameManager { game: Game::new() }
    }

    /// Get current board state.
    pub fn get_board(&self) -> (r: &Board)
        ensures
            r@ == self@.board,
    {
        self.game.get_board()
    }

    /// Get the engine.
    pub fn get_engine(&self) -> (r: &Engine)
        ensures
            r@ == self@.board,
    {
        self.game.get_engine()
    }

    /// Get current game state.
    pub fn get_game_state(&self) -> (r: GameState)
        ensures
            r == self@.state,
    {
        self.game.get_game_state()
    }

    /// Get currently selected piece.
    pub fn get_selected_piece(&self) -> (r: Option<Position>)
        ensures
            r == self@.selected,
    {
        self.game.get_selected_piece()
    }

    /// Get legal moves for selected piece.
    pub fn get_legal_moves(&self) -> (r: &[Position])
        ensures
            r@ == self@.moves,
    {
        self.game.get_legal_moves()
    }

    /// Toggle debug mode.
    pub fn toggle_debug_mode(&mut self)
        ensures
            final(self)@ == (GameView { debug: !old(self)@.debug, ..old(self)@ }),
            game_ok(final(self)@),
    {
        proof {
            use_type_invariant(&*self);
        }
        self.game.debug_mode = !self.game.debug_mode;
    }

    /// Check if in debug mode.
    pub fn is_debug_mode(&self) -> (r: bool)
        ensures
            r == self@.debug,
    {
        self.game.is_debug_mode()
    }

    /// Handle piece selection from the user interface during the player's turn; returns
    /// true if the selection changed (see `after_select` for each case).
    pub fn select_piece(&mut self, pos: Position) -> (r: bool)
        ensures
            (r, final(self)@) == after_select(old(self)@, pos),
            game_ok(final(self)@),
    {
        proof {
            use_type_invariant(&*self);
        }
        let mut game = Self::placeholder();
        std::mem::swap(&mut self.game, &mut game);
        let r = game.select_piece(pos);
        std::mem::swap(&mut self.game, &mut game);
        r
    }

    /// Whether some human unit can still make a move that the engine carries out.
    pub fn player_has_legal_moves(&self) -> (r: bool)
        ensures
            r == can_still_move(self@.board, Player::Human),
    {
        proof {
            use_type_invariant(self);
        }
        self.game.player_has_legal_moves()
    }

    /// End the player's turn by choice: the selection is cleared and the computer plays.
    /// Outside the player's turn nothing changes.
    pub fn end_player_turn(&mut self)
        ensures
            old(self)@.state == GameState::PlayerTurn ==> final(self)@ == (GameView {
                state: GameState::ComputerTurn,
                selected: None,
                moves: Seq::empty(),
                ..old(self)@
            }),
            old(self)@.state != GameState::PlayerTurn ==> final(self)@ == old(self)@,
            game_ok(final(self)@),
    {
        proof {
            use_type_invariant(&*self);
        }
        let mut game = Self::placeholder();
        std::mem::swap(&mut self.game, &mut game);
        game.end_player_turn();
        std::mem::swap(&mut self.game, &mut game);
    }

    /// Process the computer's turn: the computer's units get full action tokens, and each
    /// of them, in square order, makes the move of the simple computer player; then the turn
    /// passes back to the player, whose units get full action tokens, unless the game is
    /// over. Returns true if the game state changed.
    pub fn process_computer_turn(&mut self) -> (r: bool)
        ensures
            r == (old(self)@.state == GameState::ComputerTurn),
            !r ==> final(self)@ == old(self)@,
            r ==> final(self)@ == after_computer(old(self)@),
            game_ok(final(self)@),
    {
        proof {
            use_type_invariant(&*self);
        }
        let mut game = Self::placeholder();
        std::mem::swap(&mut self.game, &mut game);
        let r = game.process_computer_turn();
        std::mem::swap(&mut self.game, &mut game);
        r
    }

    /// Update game logic (called each frame): runs the computer's turn when it is due.
    pub fn update(&mut self)
        ensures
            old(self)@.state != GameState::ComputerTurn ==> final(self)@ == old(self)@,
            old(self)@.state == GameState::ComputerTurn ==> final(self)@ == after_computer(old(self)@),
            game_ok(final(self)@),
    {
        proof {
            use_type_invariant(&*self);
        }
        if self.game.get_game_state() == GameState::ComputerTurn {
            self.process_computer_turn();
        }
    }

    /// Get a status message for the user interface.
    pub fn get_status_message(&self) -> (r: String)
        ensures
            r@ == status_text(self@.state, self@.selected is Some),
    {
        self.game.get_status_message()
    }
}

} // verus!
