//! The model and input handling of the chess board viewer: an 8x8 board of piece letters,
//! moves typed as "e2-e4", and the last three moves with the local time they were made.

use vstd::prelude::*;
use vstd::string::*;

use crate::text::{chars_of, push_char};

verus! {

/// The mark of an empty square.
pub const EMPTY_SQUARE: char = ' ';

/// A square of the chess viewer: row `i` from the top (0 is rank 8), column `j` (0 is file a).
#[derive(Debug, Clone, Copy, PartialEq, Eq, Structural)]
pub struct ChessSquare {
    pub i: usize,
    pub j: usize,
}

impl ChessSquare {
    pub fn new(i: usize, j: usize) -> (r: Self)
        ensures
            r == (ChessSquare { i, j }),
    {
        ChessSquare { i, j }
    }
}

/// The content of a chess model: the rows of the board from the top, whether it changed
/// since the flag was last reset, and the recent move records, oldest first.
#[verifier::ext_equal]
pub struct ChessView {
    pub board: Seq<Seq<char>>,
    pub updated: bool,
    pub history: Seq<Seq<char>>,
}

/// The board and the recent moves of the chess viewer.
pub struct ChessModel {
    board: [[char; 8]; 8],
    updated: bool,
    move_history: Vec<String>,
}

impl View for ChessModel {
    type V = ChessView;

    closed spec fn view(&self) -> ChessView {
        ChessView {
            board: Seq::new(8, |i: int| self.board[i]@),
            updated: self.updated,
            history: Seq::new(self.move_history@.len(), |k: int| self.move_history@[k]@),
        }
    }
}

/// The rows of the starting position: black pieces at the top, white at the bottom.
pub open spec fn start_rows() -> Seq<Seq<char>> {
    seq![
        seq!['r', 'n', 'b', 'q', 'k', 'b', 'n', 'r'],
        seq!['p', 'p', 'p', 'p', 'p', 'p', 'p', 'p'],
        seq![' ', ' ', ' ', ' ', ' ', ' ', ' ', ' '],
        seq![' ', ' ', ' ', ' ', ' ', ' ', ' ', ' '],
        seq![' ', ' ', ' ', ' ', ' ', ' ', ' ', ' '],
        seq![' ', ' ', ' ', ' ', ' ', ' ', ' ', ' '],
        seq!['P', 'P', 'P', 'P', 'P', 'P', 'P', 'P'],
        seq!['R', 'N', 'B', 'Q', 'K', 'B', 'N', 'R'],
    ]
}

/// The move of the piece on `a` to `b` is refused: a square is off the board, the squares
/// are the same, or `a` is empty.
pub open spec fn move_refused(v: ChessView, a: ChessSquare, b: ChessSquare) -> bool {
    a.i > 7 || a.j > 7 || b.i > 7 || b.j > 7 || a == b || v.board[a.i as int][a.j as int] == EMPTY_SQUARE
}

/// The text of a move, such as "e2-e4".
pub open spec fn move_text(a: ChessSquare, b: ChessSquare) -> Seq<char> {
    seq![
        (97 + a.j) as char,
        (48 + 8 - a.i) as char,
        '-',
        (97 + b.j) as char,
        (48 + 8 - b.i) as char,
    ]
}

/// The record of a move made at time `stamp`: "<stamp> e2-e4".
pub open spec fn move_record(stamp: Seq<char>, a: ChessSquare, b: ChessSquare) -> Seq<char> {
    stamp + seq![' '] + move_text(a, b)
}

/// The history after adding a record: the oldest record goes when there are more than three.
pub open spec fn add_record(history: Seq<Seq<char>>, record: Seq<char>) -> Seq<Seq<char>> {
    if history.len() + 1 > 3 {
        history.push(record).drop_first()
    } else {
        history.push(record)
    }
}

/// The model after the piece on `a` moves to `b` at time `stamp`.
pub open spec fn chess_move(v: ChessView, a: ChessSquare, b: ChessSquare, stamp: Seq<char>) -> ChessView {
    let piece = v.board[a.i as int][a.j as int];
    let board = v.board.update(b.i as int, v.board[b.i as int].update(b.j as int, piece));
    let board = board.update(a.i as int, board[a.i as int].update(a.j as int, EMPTY_SQUARE));
    ChessView { board, updated: true, history: add_record(v.history, move_record(stamp, a, b)) }
}

/// A time stamp of the shape "MM/DD/YY HH:MM:SS": two digits per field, with `/` in the
/// date, a space, and `:` in the time.
pub open spec fn stamp_shape(s: Seq<char>) -> bool {
    &&& s.len() == 17
    &&& forall|k: int| 0 <= k < 17 && k % 3 != 2 ==> '0' <= #[trigger] s[k] <= '9'
    &&& s[2] == '/' && s[5] == '/'
    &&& s[8] == ' '
    &&& s[11] == ':' && s[14] == ':'
}

/// Calls chrono's `Local::now()` and formats the local time with `"%m/%d/%y %H:%M:%S"`,
/// such as "06/01/25 14:03:09": each field is written as two zero-padded digits (the year
/// modulo 100), so the stamp has that shape. Which time it gives is not stated.
#[verifier::external_body]
fn local_time_stamp() -> (r: String)
    ensures
        stamp_shape(r@),
{
    chrono::Local::now().format("%m/%d/%y %H:%M:%S").to_string()
}

/// Builds "<stamp> e2-e4" for a move between two squares of the board.
pub fn make_move_record(stamp: &str, a: ChessSquare, b: ChessSquare) -> (r: String)
    requires
        a.i < 8,
        a.j < 8,
        b.i < 8,
        b.j < 8,
    ensures
        r@ == move_record(stamp@, a, b),
{
    let mut s = String::from_str(stamp);
    push_char(&mut s, ' ');
    push_char(&mut s, (97 + a.j as u8) as char);
    push_char(&mut s, (48 + 8 - a.i as u8) as char);
    push_char(&mut s, '-');
    push_char(&mut s, (97 + b.j as u8) as char);
    push_char(&mut s, (48 + 8 - b.i as u8) as char);
    assert(s@ =~= move_record(stamp@, a, b));
    s
}

impl ChessModel {
    /// At most the last three move records are kept.
    #[verifier::type_invariant]
    spec fn keeps_three(self) -> bool {
        self.move_history.len() <= 3
    }

    /// The board has 8 rows of 8 squares.
    pub open spec fn wf(self) -> bool {
        &&& self@.board.len() == 8
        &&& forall|i: int| 0 <= i < 8 ==> (#[trigger] self@.board[i]).len() == 8
    }

    /// Every model's board has 8 rows of 8 squares.
    pub proof fn lemma_wf(&self)
        ensures
            self.wf(),
    {
    }

    /// The starting position, marked as updated, with no moves recorded.
    pub fn new() -> (r: Self)
        ensures
            r@ == (ChessView { board: start_rows(), updated: true, history: Seq::empty() }),
    {
        let black_pieces: [char; 8] = ['r', 'n', 'b', 'q', 'k', 'b', 'n', 'r'];
        let black_pawns: [char; 8] = ['p', 'p', 'p', 'p', 'p', 'p', 'p', 'p'];
        let empty: [char; 8] = [' ', ' ', ' ', ' ', ' ', ' ', ' ', ' '];
        let white_pawns: [char; 8] = ['P', 'P', 'P', 'P', 'P', 'P', 'P', 'P'];
        let white_pieces: [char; 8] = ['R', 'N', 'B', 'Q', 'K', 'B', 'N', 'R'];
        let board: [[char; 8]; 8] = [black_pieces, black_pawns, empty, empty, empty, empty, white_pawns, white_pieces];
        let r = ChessModel { board, updated: true, move_history: Vec::new() };
        assert(r@.board =~= start_rows());
        assert(r@.history =~= Seq::<Seq<char>>::empty());
        r
    }

    /// The board, row by row from the top.
    pub fn get_board(&self) -> (r: &[[char; 8]; 8])
        ensures
            forall|i: int| 0 <= i < 8 ==> (#[trigger] r[i])@ == self@.board[i],
    {
        &self.board
    }

    /// The recent move records, oldest first.
    pub fn get_move_history(&self) -> (r: &Vec<String>)
        ensures
            r@.len() == self@.history.len(),
            r@.len() <= 3,
            forall|k: int| 0 <= k < r@.len() ==> (#[trigger] r@[k])@ == self@.history[k],
    {
        proof {
            use_type_invariant(self);
        }
        &self.move_history
    }

    /// Whether the board changed since the flag was last reset.
    pub fn is_updated(&self) -> (r: bool)
        ensures
            r == self@.updated,
    {
        self.updated
    }

    /// Replaces the board and marks the model as updated.
    pub fn set_board(&mut self, new_board: [[char; 8]; 8])
        ensures
            final(self)@.board == Seq::new(8, |i: int| new_board[i]@),
            final(self)@.updated,
            final(self)@.history == old(self)@.history,
    {
        proof {
            use_type_invariant(&*self);
        }
        self.board = new_board;
        self.updated = true;
        assert(self@.history =~= old(self)@.history);
    }

    /// Moves the piece on `start` to `destination`, marks the model as updated and records
    /// the move with the local time; refused moves change nothing.
    pub fn move_piece(&mut self, start: ChessSquare, destination: ChessSquare)
        ensures
            move_refused(old(self)@, start, destination) ==> final(self)@ == old(self)@,
            !move_refused(old(self)@, start, destination) ==> exists|stamp: Seq<char>|
                stamp_shape(stamp) && final(self)@ == chess_move(old(self)@, start, destination, stamp),
            final(self)@.history.len() <= 3,
    {
        proof {
            self.lemma_wf();
            use_type_invariant(&*self);
        }
        // Error checking.
        if start.i > 7 || start.j > 7 || destination.i > 7 || destination.j > 7 {
            return;
        }
        if start.i == destination.i && start.j == destination.j {
            return;
        }
        if self.board[start.i][start.j] == EMPTY_SQUARE {
            return;
        }
        let stamp = local_time_stamp();
        self.record_move(start, destination, stamp.as_str());
    }

    /// Moves the piece on `start` to `destination` and records the move as made at `stamp`.
    pub fn record_move(&mut self, start: ChessSquare, destination: ChessSquare, stamp: &str)
        requires
            !move_refused(old(self)@, start, destination),
        ensures
            final(self)@ == chess_move(old(self)@, start, destination, stamp@),
            final(self)@.history.len() <= 3,
    {
        proof {
            self.lemma_wf();
            use_type_invariant(&*self);
        }
        let ghost v = self@;
        // Move the piece.
        let piece = self.board[start.i][start.j];
        self.board[destination.i][destination.j] = piece;
        self.board[start.i][start.j] = EMPTY_SQUARE;
        self.updated = true;
        // Record the move.
        let record = make_move_record(stamp, start, destination);
        // The new history: the old records but the oldest when there would be more than
        // three, then the new one.
        let n = self.move_history.len();
        let first: usize = if n + 1 > 3 { 1 } else { 0 };
        let mut history: Vec<String> = Vec::new();
        let mut k: usize = first;
        while k < n
            invariant
                n == self.move_history@.len(),
                n <= 3,
                first <= k <= n,
                history@.len() == k - first,
                forall|j: int| 0 <= j < k - first ==> #[trigger] history@[j] == self.move_history@[first + j],
            decreases n - k,
        {
            history.push(self.move_history[k].clone());
            k = k + 1;
        }
        history.push(record);
        self.move_history = history;
        assert(self@.board =~= chess_move(v, start, destination, stamp@).board);
        assert(self@.history =~= chess_move(v, start, destination, stamp@).history);
        proof {
            use_type_invariant(&*self);
        }
    }

    /// Clears the updated flag.
    pub fn reset_update_flag(&mut self)
        ensures
            final(self)@ == (ChessView { updated: false, ..old(self)@ }),
    {
        proof {
            use_type_invariant(&*self);
        }
        self.updated = false;
        assert(self@.board =~= old(self)@.board);
        assert(self@.history =~= old(self)@.history);
    }
}


/// `s` holds exactly one '-', at `k`.
pub open spec fn single_dash_at(s: Seq<char>, k: int) -> bool {
    &&& 0 <= k < s.len()
    &&& s[k] == '-'
    &&& forall|m: int| 0 <= m < s.len() && m != k ==> s[m] != '-'
}

/// The text before and after the '-' of a move such as "e2-e4", when it holds exactly one;
/// `str::split('-')` gives these two parts and no others.
pub open spec fn move_halves(s: Seq<char>) -> Option<(Seq<char>, Seq<char>)> {
    if exists|k: int| single_dash_at(s, k) {
        let k = choose|k: int| single_dash_at(s, k);
        Some((s.take(k), s.skip(k + 1)))
    } else {
        None
    }
}

/// Reading a square such as "e2" panics when the text does not start with two ASCII chars
/// (the byte slices `[0..1]` and `[1..2]` then fail), or when the digit is 9 (8 - 9 overflows).
pub open spec fn part_panics(p: Seq<char>) -> bool {
    p.len() < 2 || p[0] as u32 >= 128 || p[1] as u32 >= 128 || p[1] == '9'
}

/// The square that a text such as "e2" names: a letter a-h, then a digit.
pub open spec fn part_square(p: Seq<char>) -> Option<ChessSquare> {
    if '0' <= p[1] <= '9' && 'a' <= p[0] <= 'h' {
        Some(ChessSquare { i: (8 - (p[1] as u32 - 48)) as usize, j: (p[0] as u32 - 97) as usize })
    } else {
        None
    }
}

/// Parsing the move `s` panics: its first square panics, or it reads and the second panics.
pub open spec fn parse_panics(s: Seq<char>) -> bool {
    match move_halves(s) {
        Some((a, b)) => part_panics(a) || (part_square(a) is Some && part_panics(b)),
        None => false,
    }
}

/// The squares of the move `s`; both a1 (row 0, column 0) when it does not read.
pub open spec fn parsed_move(s: Seq<char>) -> (ChessSquare, ChessSquare) {
    let zero = ChessSquare { i: 0, j: 0 };
    match move_halves(s) {
        Some((a, b)) => match (part_square(a), part_square(b)) {
            (Some(x), Some(y)) => (x, y),
            _ => (zero, zero),
        },
        None => (zero, zero),
    }
}

/// Where the single '-' of `chars` stands, if there is exactly one.
fn find_single_dash(chars: &Vec<char>) -> (r: Option<usize>)
    ensures
        r matches Some(k) ==> single_dash_at(chars@, k as int),
        r is None ==> !exists|k: int| single_dash_at(chars@, k),
{
    let mut found: Option<usize> = None;
    let mut count: usize = 0;
    let mut i: usize = 0;
    while i < chars.len()
        invariant
            i <= chars@.len(),
            count <= i,
            count == 0 ==> found is None && forall|m: int| 0 <= m < i ==> chars@[m] != '-',
            count == 1 ==> found is Some && found->0 < i && chars@[found->0 as int] == '-' && forall|m: int|
                0 <= m < i && m != found->0 ==> chars@[m] != '-',
            count >= 2 ==> exists|a: int, b: int| 0 <= a < b < i && chars@[a] == '-' && chars@[b] == '-',
        decreases chars@.len() - i,
    {
        if chars[i] == '-' {
            if count == 1 {
                let k = found.unwrap();
                assert(0 <= k < i && chars@[k as int] == '-' && chars@[i as int] == '-');
            }
            if count < 2 {
                count = count + 1;
            }
            found = Some(i);
        }
        i = i + 1;
    }
    if count == 1 {
        found
    } else {
        if count >= 2 {
            assert forall|k: int| !single_dash_at(chars@, k) by {
                let (a, b) = choose|a: int, b: int| 0 <= a < b < chars@.len() && chars@[a] == '-' && chars@[b] == '-';
                if single_dash_at(chars@, k) {
                    assert(a == k && b == k);
                }
            }
        }
        None
    }
}

/// The square named by the two chars `c0` (a letter) and `c1` (a digit).
fn read_square(c0: char, c1: char) -> (r: Option<ChessSquare>)
    requires
        c1 != '9',
    ensures
        r == part_square(seq![c0, c1]),
{
    if !('0' <= c1 && c1 <= '9') {
        return None;
    }
    let i: usize = 8 - (c1 as u32 - 48) as usize;
    if !('a' <= c0 && c0 <= 'h') {
        return None;
    }
    let j: usize = (c0 as u32 - 97) as usize;
    Some(ChessSquare { i, j })
}

/// Whether parsing the move `input` panics.
pub fn parse_would_panic(input: &str) -> (r: bool)
    ensures
        r == parse_panics(input@),
{
    let chars = chars_of(input);
    match find_single_dash(&chars) {
        Some(k) => {
            proof {
                assert(move_halves(chars@) == Some((chars@.take(k as int), chars@.skip(k + 1))));
            }
            let n = chars.len();
            let a_bad = k < 2 || chars[0] as u32 >= 128 || chars[1] as u32 >= 128 || chars[1] == '9';
            if a_bad {
                return true;
            }
            let a_reads = '0' <= chars[1] && chars[1] <= '9' && 'a' <= chars[0] && chars[0] <= 'h';
            let b_bad = n - (k + 1) < 2 || chars[k + 1] as u32 >= 128 || chars[k + 2] as u32 >= 128 || chars[k + 2] == '9';
            a_reads && b_bad
        },
        None => false,
    }
}

/// The chess viewer's controller: it reads typed moves and applies them to the model.
pub struct ChessController {
    pub model: ChessModel,
}

impl ChessController {
    pub fn new() -> (r: Self)
        ensures
            r.model@ == (ChessView { board: start_rows(), updated: true, history: Seq::empty() }),
    {
        ChessController { model: ChessModel::new() }
    }

    /// Reads a move such as "e2-e4" into its two squares; both squares are a1 (row 0,
    /// column 0) when the text is not two squares joined by a '-'.
    pub fn parse_move(&self, move_str: &str) -> (r: (ChessSquare, ChessSquare))
        requires
            !parse_panics(move_str@),
        ensures
            r == parsed_move(move_str@),
    {
        let zero = (ChessSquare::new(0, 0), ChessSquare::new(0, 0));
        let chars = chars_of(move_str);
        let k = match find_single_dash(&chars) {
            Some(k) => k,
            None => return zero,
        };
        let ghost a = chars@.take(k as int);
        let ghost b = chars@.skip(k + 1);
        proof {
            assert(move_halves(chars@) == Some((a, b)));
            assert(a.len() >= 2);
            assert(a[0] == chars@[0] && a[1] == chars@[1]);
            assert(seq![chars@[0], chars@[1]] =~= seq![a[0], a[1]]);
        }
        let start = match read_square(chars[0], chars[1]) {
            Some(s) => s,
            None => return zero,
        };
        proof {
            assert(single_dash_at(chars@, k as int));
            assert(b.len() == chars@.len() - (k + 1));
            assert(b.len() >= 2);
            assert(k + 2 < chars@.len());
            assert(b[0] == chars@[k + 1] && b[1] == chars@[k + 2]);
        }
        assert(k + 2 < chars.len());
        let second = k + 1;
        let digit = k + 2;
        let dest = match read_square(chars[second], chars[digit]) {
            Some(d) => d,
            None => return zero,
        };
        (start, dest)
    }

    /// Applies a typed move to the model.
    pub fn handle_input(&mut self, input: &str)
        requires
            !parse_panics(input@),
        ensures
            ({
                let (a, b) = parsed_move(input@);
                &&& move_refused(old(self).model@, a, b) ==> final(self).model@ == old(self).model@
                &&& !move_refused(old(self).model@, a, b) ==> exists|stamp: Seq<char>|
                    stamp_shape(stamp) && final(self).model@ == chess_move(old(self).model@, a, b, stamp)
            }),
            final(self).model@.history.len() <= 3,
    {
        let (start, destination) = self.parse_move(input);
        self.model.move_piece(start, destination);
    }
}

} // verus!
