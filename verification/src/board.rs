//! The game board: a terrain layer, a unit layer and an effects layer over the 64 squares,
//! and how a board is read from a map string.

use vstd::prelude::*;
use vstd::string::*;

use crate::attack::{attack_panics, attack_squares};
use crate::position::{square, Position};
use crate::text::{
    chars_of, is_space, is_space_char, lemma_split_lines_nonempty, lemma_split_words_last, split_lines,
    split_words,
};
use crate::unit::{Player, Terrain, Unit};

verus! {

/// Effects that can lie on a square, such as poison gas.
#[derive(Debug, Clone, Copy, PartialEq, Eq, Structural)]
pub enum Effect {
    PoisonGas,
    Radiation,
    Fire,
}

/// Game state for the turn state machine.
#[derive(Debug, Clone, Copy, PartialEq, Eq, Structural)]
pub enum GameState {
    PlayerTurn,
    ComputerTurn,
    ComputerThinking,
    ComputerAnimating,
    GameOver,
}

/// Result of an attack action.
#[derive(Debug, Clone, Copy, PartialEq, Eq, Structural)]
pub struct AttackResult {
    pub damage_dealt: u8,
    pub target_destroyed: bool,
    pub target_position: Position,
}

/// The content of a board, layer by layer, one entry per square by square number
/// (a1 = 0, b1 = 1, ..., h8 = 63).
#[verifier::ext_equal]
pub struct BoardView {
    pub tiles: Seq<Terrain>,
    pub squares: Seq<Option<Unit>>,
    pub effects: Seq<Seq<Effect>>,
}

impl BoardView {
    /// Every layer has one entry per square.
    pub open spec fn wf(self) -> bool {
        self.tiles.len() == 64 && self.squares.len() == 64 && self.effects.len() == 64
    }

    /// The terrain at a square of the board.
    pub open spec fn terrain_at(self, p: Position) -> Terrain {
        self.tiles[p.index()]
    }

    /// The unit at a position; none off the board.
    pub open spec fn piece_at(self, p: Position) -> Option<Unit> {
        if p.valid() {
            self.squares[p.index()]
        } else {
            None
        }
    }

    /// Whether a unit of `player` stands on `p`.
    pub open spec fn holds_unit_of(self, p: Position, player: Player) -> bool {
        self.piece_at(p) matches Some(u) && u.player == player
    }

    /// Whether a unit of another player than `player`, still alive, stands on `p`.
    pub open spec fn holds_enemy_of(self, p: Position, player: Player) -> bool {
        self.piece_at(p) matches Some(t) && t.player != player && t.alive()
    }

    /// The same board with `u` on square `p`.
    pub open spec fn with_piece(self, p: Position, u: Option<Unit>) -> BoardView {
        BoardView { squares: self.squares.update(p.index(), u), ..self }
    }
}

impl View for Board {
    type V = BoardView;

    open spec fn view(&self) -> BoardView {
        BoardView { tiles: self.tiles(), squares: self.squares(), effects: self.effect_lists() }
    }
}

/// Game board with multiple layers, one entry per square.
///
/// The units layer holds one slot per square rather than a map keyed by square: a square
/// holds at most one unit by construction, no entry can lie off the board, and the units
/// come out in square order, which the order of `Engine::get_player_pieces` and of the
/// computer's moves relies on, where a hash map is walked in no stated order.
pub struct Board {
    /// Terrain layer: `terrain[rank][file]`.
    terrain: [[Terrain; 8]; 8],
    /// Units layer: the unit on each square, by square number (a1 = 0, ..., h8 = 63).
    pieces: Vec<Option<Unit>>,
    /// Effects layer: temporary effects on each square, by square number.
    effects: Vec<Vec<Effect>>,
}

/// `r` refers to the unit that `o` holds, or to none when `o` is empty.
pub open spec fn refers_to(r: Option<&Unit>, o: Option<Unit>) -> bool {
    match r {
        Some(u) => o == Some(*u),
        None => o is None,
    }
}

/// The terrain that a map cell stands for.
pub open spec fn cell_terrain(cell: Option<Seq<char>>) -> Terrain {
    match cell {
        Some(w) => if w == seq!['S'] {
            Terrain::SingleBuilding
        } else if w == seq!['D'] {
            Terrain::DoubleBuilding
        } else if w == seq!['T'] {
            Terrain::Forest
        } else if w == seq!['M'] {
            Terrain::Mountain
        } else if w == seq!['W'] {
            Terrain::Water
        } else if w == seq!['I'] {
            Terrain::MonsterIngress
        } else {
            Terrain::Grass
        },
        None => Terrain::Grass,
    }
}

/// Whether `u` is the unit that a map cell puts on square `p`: a mech named
/// "Pilot-<square>" for `P`, a leaper named "Enemy-<square>" for `H`, none otherwise.
pub open spec fn cell_unit(cell: Option<Seq<char>>, p: Position, u: Option<Unit>) -> bool {
    if cell == Some(seq!['P']) {
        u matches Some(x) && x.is_new_mech("Pilot-"@ + p.notation())
    } else if cell == Some(seq!['H']) {
        u matches Some(x) && x.is_new_leaper("Enemy-"@ + p.notation())
    } else {
        u is None
    }
}

/// The word in column `col` of line `row`, if the lines have one there.
pub open spec fn lines_cell(lines: Seq<Seq<char>>, row: int, col: int) -> Option<Seq<char>> {
    if 0 <= row < lines.len() && 0 <= col < split_words(lines[row]).len() {
        Some(split_words(lines[row])[col])
    } else {
        None
    }
}

/// The cell of a map string that describes square `p`: the `p.file`-th whitespace-separated
/// word of line number `p.rank` (the first line describes rank 1).
pub open spec fn map_cell(map: Seq<char>, p: Position) -> Option<Seq<char>> {
    lines_cell(split_lines(map), p.rank as int, p.file as int)
}

impl Board {
    /// The terrain of the 64 squares, by square number.
    pub closed spec fn tiles(self) -> Seq<Terrain> {
        Seq::new(64, |i: int| self.terrain[i / 8][i % 8])
    }

    /// The units on the 64 squares, by square number.
    pub closed spec fn squares(self) -> Seq<Option<Unit>> {
        self.pieces@
    }

    /// The effects on the 64 squares, by square number.
    pub closed spec fn effect_lists(self) -> Seq<Seq<Effect>> {
        Seq::new(self.effects@.len(), |i: int| self.effects@[i]@)
    }

    /// Every layer has one entry per square; every board keeps this.
    #[verifier::type_invariant]
    pub open spec fn wf(self) -> bool {
        self@.wf()
    }

    /// The terrain at a square of the board.
    pub open spec fn terrain_at(self, p: Position) -> Terrain {
        self@.terrain_at(p)
    }

    /// The unit at a position; none off the board.
    pub open spec fn piece_at(self, p: Position) -> Option<Unit> {
        self@.piece_at(p)
    }

    /// The board that a map string describes.
    pub open spec fn matches_map(self, map: Seq<char>) -> bool {
        &&& self.wf()
        &&& forall|p: Position| #[trigger] p.valid() ==> {
            &&& self.terrain_at(p) == cell_terrain(map_cell(map, p))
            &&& cell_unit(map_cell(map, p), p, self.piece_at(p))
        }
        &&& forall|i: int| 0 <= i < 64 ==> (#[trigger] self.effect_lists()[i]).len() == 0
    }

    proof fn lemma_index(p: Position)
        requires
            p.valid(),
        ensures
            0 <= p.index() < 64,
            p.index() / 8 == p.rank,
            p.index() % 8 == p.file,
            square(p.index()) == p,
    {
    }

    /// An all-grass board without units or effects.
    pub(crate) fn blank() -> (r: Board)
        ensures
            r.wf(),
            forall|i: int| 0 <= i < 64 ==> (#[trigger] r.tiles()[i]) == Terrain::Grass,
            forall|i: int| 0 <= i < 64 ==> (#[trigger] r.squares()[i]) is None,
            forall|i: int| 0 <= i < 64 ==> (#[trigger] r.effect_lists()[i]).len() == 0,
    {
        let row: [Terrain; 8] = [Terrain::Grass, Terrain::Grass, Terrain::Grass, Terrain::Grass,
            Terrain::Grass, Terrain::Grass, Terrain::Grass, Terrain::Grass];
        let terrain: [[Terrain; 8]; 8] = [row, row, row, row, row, row, row, row];
        let mut pieces: Vec<Option<Unit>> = Vec::new();
        let mut effects: Vec<Vec<Effect>> = Vec::new();
        let mut i: usize = 0;
        while i < 64
            invariant
                i <= 64,
                pieces@.len() == i,
                effects@.len() == i,
                forall|k: int| 0 <= k < i ==> (#[trigger] pieces@[k]) is None,
                forall|k: int| 0 <= k < i ==> (#[trigger] effects@[k])@.len() == 0,
            decreases 64 - i,
        {
            pieces.push(None);
            effects.push(Vec::new());
            i = i + 1;
        }
        let r = Board { terrain, pieces, effects };
        assert forall|i: int| 0 <= i < 64 implies (#[trigger] r.tiles()[i]) == Terrain::Grass by {
            assert(0 <= i / 8 < 8 && 0 <= i % 8 < 8);
        }
        r
    }

    /// Get terrain at position.
    pub fn get_terrain(&self, pos: Position) -> (r: Terrain)
        requires
            pos.valid(),
        ensures
            r == self.terrain_at(pos),
    {
        proof {
            use_type_invariant(self);
            Self::lemma_index(pos);
        }
        self.terrain[pos.rank as usize][pos.file as usize]
    }

    /// Get unit at position.
    pub fn get_piece(&self, pos: Position) -> (r: Option<&Unit>)
        ensures
            refers_to(r, self.piece_at(pos)),
    {
        proof {
            use_type_invariant(self);
        }
        if pos.file < 8 && pos.rank < 8 {
            proof { Self::lemma_index(pos); }
            let i = pos.rank as usize * 8 + pos.file as usize;
            self.pieces[i].as_ref()
        } else {
            None
        }
    }

    /// Get unit at position (alias for consistency).
    pub fn get_unit(&self, pos: Position) -> (r: Option<&Unit>)
        ensures
            refers_to(r, self.piece_at(pos)),
    {
        self.get_piece(pos)
    }

    /// Get the effects lying on a square.
    pub fn get_effects(&self, pos: Position) -> (r: &Vec<Effect>)
        requires
            pos.valid(),
        ensures
            r@ == self.effect_lists()[pos.index()],
    {
        proof {
            use_type_invariant(self);
            Self::lemma_index(pos);
        }
        &self.effects[pos.rank as usize * 8 + pos.file as usize]
    }

    /// Put a unit on a square and hand back the unit that stood there before.
    pub fn place_piece(&mut self, pos: Position, unit: Unit) -> (r: Option<Unit>)
        requires
            pos.valid(),
        ensures
            final(self).wf(),
            r == old(self).piece_at(pos),
            final(self).squares() == old(self).squares().update(pos.index(), Some(unit)),
            final(self).tiles() == old(self).tiles(),
            final(self).effect_lists() == old(self).effect_lists(),
    {
        proof {
            use_type_invariant(&*self);
            Self::lemma_index(pos);
        }
        let i = pos.rank as usize * 8 + pos.file as usize;
        let mut slot = Some(unit);
        std::mem::swap(&mut self.pieces[i], &mut slot);
        proof {
            assert(self.effect_lists() =~= old(self).effect_lists());
        }
        slot
    }

    /// Take the unit off a square, if one stands there.
    pub fn take_piece(&mut self, pos: Position) -> (r: Option<Unit>)
        ensures
            final(self).wf(),
            r == old(self).piece_at(pos),
            final(self).squares() == (if pos.valid() {
                old(self).squares().update(pos.index(), None)
            } else {
                old(self).squares()
            }),
            final(self).tiles() == old(self).tiles(),
            final(self).effect_lists() == old(self).effect_lists(),
    {
        proof {
            use_type_invariant(&*self);
        }
        if pos.file < 8 && pos.rank < 8 {
            proof { Self::lemma_index(pos); }
            let i = pos.rank as usize * 8 + pos.file as usize;
            let mut slot: Option<Unit> = None;
            std::mem::swap(&mut self.pieces[i], &mut slot);
            proof {
                assert(self.effect_lists() =~= old(self).effect_lists());
            }
            slot
        } else {
            None
        }
    }

    /// Move a piece from one position to another.
    ///
    /// The piece leaves `from` before the destination is checked: when the destination
    /// is impassable or occupied, the error comes back and the piece is gone from the board.
    pub fn move_piece(&mut self, from: Position, to: Position) -> (r: Result<(), &'static str>)
        requires
            old(self).piece_at(from) is Some ==> to.valid(),
        ensures
            final(self).wf(),
            final(self).tiles() == old(self).tiles(),
            final(self).effect_lists() == old(self).effect_lists(),
            old(self).piece_at(from) is None ==> r == Err::<(), &'static str>("No piece at source position")
                && final(self).squares() == old(self).squares(),
            old(self).piece_at(from) is Some && !old(self).terrain_at(to).passable()
                ==> r == Err::<(), &'static str>("Destination is not passable")
                && final(self).squares() == old(self).squares().update(from.index(), None),
            old(self).piece_at(from) is Some && old(self).terrain_at(to).passable() && to != from
                && old(self).piece_at(to) is Some
                ==> r == Err::<(), &'static str>("Destination is occupied")
                && final(self).squares() == old(self).squares().update(from.index(), None),
            old(self).piece_at(from) is Some && old(self).terrain_at(to).passable()
                && (to == from || old(self).piece_at(to) is None)
                ==> r == Ok::<(), &'static str>(())
                && final(self).squares() == old(self).squares().update(from.index(), None).update(
                to.index(),
                old(self).piece_at(from),
            ),
    {
        proof {
            use_type_invariant(&*self);
        }
        if let Some(piece) = self.take_piece(from) {
            if !self.get_terrain(to).is_passable() {
                return Err("Destination is not passable");
            }
            if self.get_piece(to).is_some() {
                return Err("Destination is occupied");
            }
            self.place_piece(to, piece);
            Ok(())
        } else {
            Err("No piece at source position")
        }
    }
}


/// The terrain that a map word stands for.
fn word_terrain(word: &Vec<char>) -> (r: Terrain)
    ensures
        r == cell_terrain(Some(word@)),
{
    if word.len() != 1 {
        assert(word@ != seq!['S'] && word@ != seq!['D'] && word@ != seq!['T'] && word@ != seq!['M']
            && word@ != seq!['W'] && word@ != seq!['I']);
        return Terrain::Grass;
    }
    let c = word[0];
    assert(word@ =~= seq![c]);
    if c == 'S' {
        Terrain::SingleBuilding
    } else if c == 'D' {
        Terrain::DoubleBuilding
    } else if c == 'T' {
        Terrain::Forest
    } else if c == 'M' {
        Terrain::Mountain
    } else if c == 'W' {
        Terrain::Water
    } else if c == 'I' {
        Terrain::MonsterIngress
    } else {
        Terrain::Grass
    }
}

/// Whether the word is the single char `c`.
fn word_is(word: &Vec<char>, c: char) -> (r: bool)
    ensures
        r == (word@ == seq![c]),
{
    if word.len() == 1 && word[0] == c {
        assert(word@ =~= seq![c]);
        true
    } else {
        assert(word@ != seq![c]);
        false
    }
}

/// The name "<prefix><square>", such as "Pilot-e4".
pub(crate) fn square_name(prefix: &str, pos: Position) -> (r: String)
    requires
        pos.valid(),
    ensures
        r@ == prefix@ + pos.notation(),
{
    let mut name = String::from_str(prefix);
    let notation = pos.to_chess_notation();
    name.append(notation.as_str());
    name
}

impl Board {
    /// Writes the cell of a map word to square (file, rank).
    fn set_cell(&mut self, file: usize, rank: usize, word: &Vec<char>)
        requires
            file < 8,
            rank < 8,
        ensures
            final(self).wf(),
            final(self).tiles() == old(self).tiles().update(
                rank * 8 + file,
                cell_terrain(Some(word@)),
            ),
            cell_unit(
                Some(word@),
                Position { file: file as u8, rank: rank as u8 },
                final(self).squares()[rank * 8 + file],
            ),
            forall|i: int| 0 <= i < 64 && i != rank * 8 + file ==> #[trigger] final(self).squares()[i] == old(self).squares()[i],
            final(self).effect_lists() == old(self).effect_lists(),
    {
        let pos = Position { file: file as u8, rank: rank as u8 };
        proof {
            use_type_invariant(&*self);
            Self::lemma_index(pos);
        }
        let t = word_terrain(word);
        self.terrain[rank][file] = t;
        proof {
            assert(self.tiles() =~= old(self).tiles().update(rank * 8 + file, t)) by {
                assert forall|i: int| 0 <= i < 64 implies #[trigger] self.tiles()[i] == old(self).tiles().update(rank * 8 + file, t)[i] by {
                    if i == rank * 8 + file {
                    } else {
                        assert(i / 8 != rank || i % 8 != file);
                    }
                }
            }
            assert(self.effect_lists() =~= old(self).effect_lists());
        }
        if word_is(word, 'P') {
            let name = square_name("Pilot-", pos);
            self.place_piece(pos, Unit::new_mech(name));
        } else if word_is(word, 'H') {
            let name = square_name("Enemy-", pos);
            self.place_piece(pos, Unit::new_leaper(name));
        } else {
            self.take_piece(pos);
        }
    }

    /// Create a new board from a test map string.
    ///
    /// The map holds one line per rank, the first line for rank 1; each line holds
    /// whitespace-separated cells, the first for file a. Lines after the eighth and cells
    /// after the eighth are ignored, missing cells are grass. `S`, `D`, `T`, `M`, `W` and
    /// `I` are a single building, a double building, forest, mountain, water and a monster
    /// ingress; `P` puts a player mech on grass, `H` a computer leaper; anything else is grass.
    pub fn from_map_string(map_str: &str) -> (r: Self)
        ensures
            r.matches_map(map_str@),
    {
        let chars = chars_of(map_str);
        let mut board = Board::blank();
        let mut row: usize = 0;
        let mut col: usize = 0;
        let mut word: Vec<char> = Vec::new();
        let mut in_word = false;
        let mut i: usize = 0;
        proof {
            assert(chars@.take(0) =~= Seq::<char>::empty());
            assert(split_lines(chars@.take(0)) =~= seq![Seq::<char>::empty()]);
        }
        while i < chars.len()
            invariant
                chars@ == map_str@,
                i <= chars@.len(),
                row <= i,
                col <= i,
                board.wf(),
                split_lines(chars@.take(i as int)).len() == row + 1,
                col == split_words(split_lines(chars@.take(i as int)).last()).len(),
                in_word == (split_lines(chars@.take(i as int)).last().len() > 0 && !is_space(
                    split_lines(chars@.take(i as int)).last().last(),
                )),
                in_word ==> word@ == split_words(split_lines(chars@.take(i as int)).last()).last(),
                forall|p: Position| #[trigger] p.valid() ==> {
                    &&& board.terrain_at(p) == cell_terrain(lines_cell(split_lines(chars@.take(i as int)), p.rank as int, p.file as int))
                    &&& cell_unit(lines_cell(split_lines(chars@.take(i as int)), p.rank as int, p.file as int), p, board.piece_at(p))
                },
                forall|k: int| 0 <= k < 64 ==> (#[trigger] board.effect_lists()[k]).len() == 0,
            decreases chars@.len() - i,
        {
            let c = chars[i];
            let ghost prev = chars@.take(i as int);
            let ghost lines = split_lines(prev);
            let ghost next = chars@.take(i + 1);
            proof {
                assert(next.drop_last() =~= prev);
                assert(next.last() == c);
                lemma_split_lines_nonempty(prev);
            }
            if c == '\n' {
                row = row + 1;
                col = 0;
                in_word = false;
                word = Vec::new();
                proof {
                    assert(split_lines(next) == lines.push(Seq::empty()));
                    assert forall|p: Position| #[trigger] p.valid() implies
                        lines_cell(split_lines(next), p.rank as int, p.file as int)
                            == lines_cell(lines, p.rank as int, p.file as int) by {
                        if p.rank < lines.len() {
                            assert(split_lines(next)[p.rank as int] == lines[p.rank as int]);
                        } else if p.rank == lines.len() {
                            assert(split_words(Seq::<char>::empty()).len() == 0);
                        }
                    }
                }
            } else {
                let ghost line = lines.last();
                let ghost new_line = line.push(c);
                proof {
                    assert(split_lines(next) == lines.update(lines.len() - 1, new_line));
                    assert(new_line.drop_last() =~= line);
                    assert(new_line.last() == c);
                }
                if is_space_char(c) {
                    in_word = false;
                    proof {
                        assert(split_words(new_line) == split_words(line));
                        assert forall|p: Position| #[trigger] p.valid() implies
                            lines_cell(split_lines(next), p.rank as int, p.file as int)
                                == lines_cell(lines, p.rank as int, p.file as int) by {
                            if p.rank < lines.len() - 1 {
                                assert(split_lines(next)[p.rank as int] == lines[p.rank as int]);
                            }
                        }
                    }
                } else {
                    let ghost old_words = split_words(line);
                    if in_word {
                        word.push(c);
                        proof {
                            assert(new_line.len() > 1);
                            assert(new_line[new_line.len() - 2] == line.last());
                            lemma_split_words_last(line);
                            assert(split_words(new_line) == old_words.update(old_words.len() - 1, old_words.last().push(c)));
                        }
                    } else {
                        word = Vec::new();
                        word.push(c);
                        col = col + 1;
                        proof {
                            if line.len() > 0 {
                                assert(new_line[new_line.len() - 2] == line.last());
                            }
                            assert(split_words(new_line) == old_words.push(seq![c]));
                        }
                    }
                    in_word = true;
                    proof {
                        assert(word@ == split_words(new_line).last());
                        assert(split_words(new_line).len() == col);
                    }
                    let ghost before = board;
                    if row < 8 && col <= 8 {
                        board.set_cell(col - 1, row, &word);
                    }
                    proof {
                        assert forall|p: Position| #[trigger] p.valid() implies {
                            &&& board.terrain_at(p) == cell_terrain(lines_cell(split_lines(next), p.rank as int, p.file as int))
                            &&& cell_unit(lines_cell(split_lines(next), p.rank as int, p.file as int), p, board.piece_at(p))
                        } by {
                            Self::lemma_index(p);
                            if p.rank == row && p.file == col - 1 {
                                assert(lines_cell(split_lines(next), p.rank as int, p.file as int) == Some(word@));
                            } else {
                                if p.rank < lines.len() - 1 {
                                    assert(split_lines(next)[p.rank as int] == lines[p.rank as int]);
                                }
                                if p.rank == row {
                                    assert(p.file < col - 1 || p.file >= col);
                                    if p.file < col - 1 {
                                        assert(split_words(new_line)[p.file as int] == old_words[p.file as int]);
                                    }
                                }
                                assert(lines_cell(split_lines(next), p.rank as int, p.file as int)
                                    == lines_cell(lines, p.rank as int, p.file as int));
                                assert(board.piece_at(p) == before.piece_at(p));
                                assert(board.terrain_at(p) == before.terrain_at(p));
                            }
                        }
                    }
                }
            }
            i = i + 1;
        }
        assert(chars@.take(chars@.len() as int) =~= map_str@);
        board
    }
}


/// The squares of `squares` that hold a living unit of another player than `player`, in order.
pub open spec fn enemy_squares(board: BoardView, squares: Seq<Position>, player: Player) -> Seq<Position>
    decreases squares.len(),
{
    if squares.len() == 0 {
        Seq::empty()
    } else {
        let init = enemy_squares(board, squares.drop_last(), player);
        if board.holds_enemy_of(squares.last(), player) {
            init.push(squares.last())
        } else {
            init
        }
    }
}

impl Unit {
    /// The squares that this unit, standing on `from`, can strike now: the squares of its
    /// attack pattern that hold a living enemy.
    pub open spec fn attack_targets(self, from: Position, board: BoardView) -> Seq<Position> {
        enemy_squares(board, attack_squares(self.attack_pattern, from, None), self.player)
    }

    /// Get all possible attack targets from current position.
    pub fn get_attack_targets(&self, from: Position, board: &Board) -> (r: Vec<Position>)
        requires
            !attack_panics(self.attack_pattern, from, None),
        ensures
            r@ == self.attack_targets(from, board@),
    {
        proof {
            use_type_invariant(board);
        }
        let possible = self.attack_pattern.get_attack_positions(from, None);
        let mut targets: Vec<Position> = Vec::new();
        let mut k: usize = 0;
        while k < possible.len()
            invariant
                board.wf(),
                k <= possible@.len(),
                targets@ == enemy_squares(board@, possible@.take(k as int), self.player),
            decreases possible@.len() - k,
        {
            let pos = possible[k];
            proof {
                assert(possible@.take(k + 1).drop_last() =~= possible@.take(k as int));
            }
            match board.get_piece(pos) {
                Some(target_unit) => {
                    if target_unit.player != self.player && target_unit.is_alive() {
                        targets.push(pos);
                    }
                },
                None => {},
            }
            k = k + 1;
        }
        assert(possible@.take(possible@.len() as int) =~= possible@);
        targets
    }
}


/// Every square that `enemy_squares` keeps holds a living enemy of `player`.
pub proof fn lemma_enemy_squares(board: BoardView, squares: Seq<Position>, player: Player)
    ensures
        forall|k: int| 0 <= k < enemy_squares(board, squares, player).len() ==>
            board.holds_enemy_of(#[trigger] enemy_squares(board, squares, player)[k], player),
    decreases squares.len(),
{
    if squares.len() > 0 {
        lemma_enemy_squares(board, squares.drop_last(), player);
        let init = enemy_squares(board, squares.drop_last(), player);
        let all = enemy_squares(board, squares, player);
        assert forall|k: int| 0 <= k < all.len() implies board.holds_enemy_of(#[trigger] all[k], player) by {
            if k < init.len() {
                assert(all[k] == init[k]);
            }
        }
    }
}

} // verus!
