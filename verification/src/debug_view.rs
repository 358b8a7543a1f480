//! The state of the terminal debug view and what it shows on each square.

use vstd::prelude::*;

use crate::board::{Board, BoardView};
use crate::position::Position;
use crate::unit::{PieceType, Player, Terrain};

verus! {

/// The colours that the terminal debug view draws with.
#[derive(Debug, Clone, Copy, PartialEq, Eq, Structural)]
pub enum TuiColor {
    /// The terminal's own colour.
    Reset,
    Gray,
    Green,
    Yellow,
    Blue,
    Red,
    Cyan,
    Magenta,
    White,
}

/// What the debug view draws on one square: a symbol, its colour and the background.
#[derive(Debug, Clone, Copy, PartialEq, Eq, Structural)]
pub struct CellView {
    pub symbol: char,
    pub fg: TuiColor,
    pub bg: TuiColor,
}

/// Layer toggles and selection of the terminal debug view.
pub struct DebugTui {
    /// Currently selected position for debugging.
    pub selected_position: Option<Position>,
    /// Legal moves for the selected piece.
    pub legal_moves: Vec<Position>,
    /// Layer visibility toggles.
    pub show_terrain: bool,
    pub show_pieces: bool,
    pub show_effects: bool,
    pub show_legal_moves: bool,
    pub show_coordinates: bool,
}

/// The symbol of a terrain.
pub open spec fn terrain_symbol(t: Terrain) -> char {
    match t {
        Terrain::Grass => '\u{b7}',
        Terrain::SingleBuilding => 'S',
        Terrain::DoubleBuilding => 'D',
        Terrain::Forest => 'T',
        Terrain::Mountain => 'M',
        Terrain::Water => 'W',
        Terrain::MonsterIngress => 'I',
        Terrain::PowerGenerator => 'P',
        Terrain::Landmine => 'L',
        Terrain::Rocket => 'R',
    }
}

/// The colour of a terrain.
pub open spec fn terrain_color(t: Terrain) -> TuiColor {
    match t {
        Terrain::Grass | Terrain::Forest => TuiColor::Green,
        Terrain::SingleBuilding | Terrain::DoubleBuilding => TuiColor::Gray,
        Terrain::Mountain => TuiColor::Yellow,
        Terrain::Water => TuiColor::Blue,
        Terrain::MonsterIngress => TuiColor::Red,
        Terrain::PowerGenerator => TuiColor::Cyan,
        Terrain::Landmine => TuiColor::Magenta,
        Terrain::Rocket => TuiColor::White,
    }
}

impl DebugTui {
    /// What the view draws on square `pos` of `board`: the terrain when that layer is on,
    /// a unit over it when the pieces layer is on (`M` for a mech, `L` for a leaper, cyan for
    /// the player and red for the computer), on a yellow background when the square is
    /// selected and a green one when it is a shown legal move.
    pub open spec fn cell(self, board: BoardView, pos: Position) -> CellView {
        let base = if self.show_terrain {
            (terrain_symbol(board.terrain_at(pos)), terrain_color(board.terrain_at(pos)))
        } else {
            (' ', TuiColor::Gray)
        };
        let shown = if self.show_pieces && board.piece_at(pos) is Some {
            let u = board.piece_at(pos)->0;
            (
                if u.piece_type == PieceType::Mech { 'M' } else { 'L' },
                if u.player == Player::Human { TuiColor::Cyan } else { TuiColor::Red },
            )
        } else {
            base
        };
        let bg = if self.show_legal_moves && self.legal_moves@.contains(pos) {
            TuiColor::Green
        } else if self.selected_position == Some(pos) {
            TuiColor::Yellow
        } else {
            TuiColor::Reset
        };
        CellView { symbol: shown.0, fg: shown.1, bg }
    }

    pub fn new() -> (r: Self)
        ensures
            r.selected_position is None,
            r.legal_moves@.len() == 0,
            r.show_terrain && r.show_pieces && r.show_effects && r.show_legal_moves && r.show_coordinates,
    {
        Self::default()
    }

    /// Set legal moves for display.
    pub fn set_legal_moves(&mut self, moves: Vec<Position>)
        ensures
            *final(self) == (DebugTui { legal_moves: moves, ..*old(self) }),
    {
        self.legal_moves = moves;
    }

    /// Set selected position.
    pub fn set_selected_position(&mut self, pos: Option<Position>)
        ensures
            *final(self) == (DebugTui { selected_position: pos, ..*old(self) }),
    {
        self.selected_position = pos;
    }

    /// Toggle layer visibility.
    pub fn toggle_terrain(&mut self)
        ensures
            *final(self) == (DebugTui { show_terrain: !old(self).show_terrain, ..*old(self) }),
    {
        self.show_terrain = !self.show_terrain;
    }

    pub fn toggle_pieces(&mut self)
        ensures
            *final(self) == (DebugTui { show_pieces: !old(self).show_pieces, ..*old(self) }),
    {
        self.show_pieces = !self.show_pieces;
    }

    pub fn toggle_effects(&mut self)
        ensures
            *final(self) == (DebugTui { show_effects: !old(self).show_effects, ..*old(self) }),
    {
        self.show_effects = !self.show_effects;
    }

    pub fn toggle_legal_moves(&mut self)
        ensures
            *final(self) == (DebugTui { show_legal_moves: !old(self).show_legal_moves, ..*old(self) }),
    {
        self.show_legal_moves = !self.show_legal_moves;
    }

    pub fn toggle_coordinates(&mut self)
        ensures
            *final(self) == (DebugTui { show_coordinates: !old(self).show_coordinates, ..*old(self) }),
    {
        self.show_coordinates = !self.show_coordinates;
    }

    /// Handles a key of the debug view: `t`, `p`, `e`, `l` and `c` toggle the terrain,
    /// pieces, effects, legal moves and coordinates layers; `q` asks to quit, which is what
    /// the result says; any other key does nothing.
    pub fn handle_key(&mut self, key: char) -> (quit: bool)
        ensures
            quit == (key == 'q'),
            final(self).selected_position == old(self).selected_position,
            final(self).legal_moves@ == old(self).legal_moves@,
            final(self).show_terrain == (old(self).show_terrain != (key == 't')),
            final(self).show_pieces == (old(self).show_pieces != (key == 'p')),
            final(self).show_effects == (old(self).show_effects != (key == 'e')),
            final(self).show_legal_moves == (old(self).show_legal_moves != (key == 'l')),
            final(self).show_coordinates == (old(self).show_coordinates != (key == 'c')),
    {
        match key {
            'q' => return true,
            't' => self.toggle_terrain(),
            'p' => self.toggle_pieces(),
            'e' => self.toggle_effects(),
            'l' => self.toggle_legal_moves(),
            'c' => self.toggle_coordinates(),
            _ => {},
        }
        false
    }

    /// What the view draws on square `pos` of `board`.
    pub fn cell_view(&self, board: &Board, pos: Position) -> (r: CellView)
        requires
            pos.valid(),
        ensures
            r == self.cell(board@, pos),
    {
        proof {
            use_type_invariant(board);
        }
        let mut symbol = ' ';
        let mut fg = TuiColor::Gray;
        if self.show_terrain {
            let terrain = board.get_terrain(pos);
            symbol = match terrain {
                Terrain::Grass => '\u{b7}',
                Terrain::SingleBuilding => 'S',
                Terrain::DoubleBuilding => 'D',
                Terrain::Forest => 'T',
                Terrain::Mountain => 'M',
                Terrain::Water => 'W',
                Terrain::MonsterIngress => 'I',
                Terrain::PowerGenerator => 'P',
                Terrain::Landmine => 'L',
                Terrain::Rocket => 'R',
            };
            fg = match terrain {
                Terrain::Grass => TuiColor::Green,
                Terrain::SingleBuilding | Terrain::DoubleBuilding => TuiColor::Gray,
                Terrain::Forest => TuiColor::Green,
                Terrain::Mountain => TuiColor::Yellow,
                Terrain::Water => TuiColor::Blue,
                Terrain::MonsterIngress => TuiColor::Red,
                Terrain::PowerGenerator => TuiColor::Cyan,
                Terrain::Landmine => TuiColor::Magenta,
                Terrain::Rocket => TuiColor::White,
            };
        }
        // Pieces override the terrain display.
        if self.show_pieces {
            if let Some(piece) = board.get_piece(pos) {
                symbol = match piece.piece_type {
                    PieceType::Mech => 'M',
                    PieceType::Leaper => 'L',
                };
                fg = match piece.player {
                    Player::Human => TuiColor::Cyan,
                    Player::Computer => TuiColor::Red,
                };
            }
        }
        let mut bg = TuiColor::Reset;
        // Highlight the selected position.
        if self.selected_position == Some(pos) {
            bg = TuiColor::Yellow;
        }
        // Highlight legal moves.
        if self.show_legal_moves && self.shows_move(pos) {
            bg = TuiColor::Green;
        }
        CellView { symbol, fg, bg }
    }

    /// The cells of the board as the view lays them out: row 0 is rank 8 at the top, row 7
    /// is rank 1 at the bottom, and each row runs from file a to file h.
    pub fn board_rows(&self, board: &Board) -> (r: Vec<Vec<CellView>>)
        ensures
            r@.len() == 8,
            forall|i: int| 0 <= i < 8 ==> (#[trigger] r@[i])@.len() == 8,
            forall|i: int, j: int|
                0 <= i < 8 && 0 <= j < 8 ==> (#[trigger] r@[i]@[j]) == self.cell(
                    board@,
                    Position { file: j as u8, rank: (7 - i) as u8 },
                ),
    {
        proof {
            use_type_invariant(board);
        }
        let mut rows: Vec<Vec<CellView>> = Vec::new();
        let mut i: u8 = 0;
        while i < 8
            invariant
                board.wf(),
                i <= 8,
                rows@.len() == i,
                forall|a: int| 0 <= a < i ==> (#[trigger] rows@[a])@.len() == 8,
                forall|a: int, j: int|
                    0 <= a < i && 0 <= j < 8 ==> (#[trigger] rows@[a]@[j]) == self.cell(
                        board@,
                        Position { file: j as u8, rank: (7 - a) as u8 },
                    ),
            decreases 8 - i,
        {
            let rank = 7 - i;
            let mut row: Vec<CellView> = Vec::new();
            let mut file: u8 = 0;
            while file < 8
                invariant
                    board.wf(),
                    rank == 7 - i,
                    i < 8,
                    file <= 8,
                    row@.len() == file,
                    forall|j: int| 0 <= j < file ==> (#[trigger] row@[j]) == self.cell(
                        board@,
                        Position { file: j as u8, rank },
                    ),
                decreases 8 - file,
            {
                row.push(self.cell_view(board, Position { file, rank }));
                file = file + 1;
            }
            rows.push(row);
            i = i + 1;
        }
        rows
    }

    /// Whether `pos` is among the legal moves on display.
    fn shows_move(&self, pos: Position) -> (r: bool)
        ensures
            r == self.legal_moves@.contains(pos),
    {
        let mut i: usize = 0;
        while i < self.legal_moves.len()
            invariant
                i <= self.legal_moves@.len(),
                forall|k: int| 0 <= k < i ==> self.legal_moves@[k] != pos,
            decreases self.legal_moves@.len() - i,
        {
            if self.legal_moves[i] == pos {
                return true;
            }
            i = i + 1;
        }
        false
    }
}

impl Default for DebugTui {
    fn default() -> (r: Self)
        ensures
            r.selected_position is None,
            r.legal_moves@.len() == 0,
            r.show_terrain && r.show_pieces && r.show_effects && r.show_legal_moves && r.show_coordinates,
    {
        Self {
            selected_position: None,
            legal_moves: Vec::new(),
            show_terrain: true,
            show_pieces: true,
            show_effects: true,
            show_legal_moves: true,
            show_coordinates: true,
        }
    }
}

} // verus!
