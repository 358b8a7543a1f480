//! Board coordinates in chess notation and moves between them.

use vstd::prelude::*;
use vstd::string::*;

use crate::text::push_char;

verus! {

/// Chess-like coordinate system (a1-h8): a square of the 8x8 board.
/// `file` 0-7 stands for the columns a-h, `rank` 0-7 for the rows 1-8.
#[derive(Debug, Clone, Copy, PartialEq, Eq, Hash, Structural)]
pub struct Position {
    pub file: u8,
    pub rank: u8,
}

/// The square with the given number, counting a1 = 0, b1 = 1, ..., h8 = 63.
pub open spec fn square(i: int) -> Position {
    Position { file: (i % 8) as u8, rank: (i / 8) as u8 }
}

/// The square that a byte pair such as `b"e4"` names, if it names one.
pub open spec fn position_from_bytes(b0: u8, b1: u8) -> Option<Position> {
    if 97 <= b0 < 105 && 49 <= b1 < 57 {
        Some(Position { file: (b0 - 97) as u8, rank: (b1 - 49) as u8 })
    } else {
        None
    }
}

/// What the two-letter notation held in `bytes` stands for.
pub open spec fn notation_position(bytes: Seq<u8>) -> Option<Position> {
    if bytes.len() == 2 {
        position_from_bytes(bytes[0], bytes[1])
    } else {
        None
    }
}

/// True when every byte is an ASCII byte.
pub open spec fn all_ascii(bytes: Seq<u8>) -> bool {
    forall|i: int| 0 <= i < bytes.len() ==> bytes[i] < 128
}

impl Position {
    /// On the board: both coordinates are in 0-7.
    pub open spec fn valid(self) -> bool {
        self.file < 8 && self.rank < 8
    }

    /// The number of the square, a1 = 0 up to h8 = 63.
    pub open spec fn index(self) -> int {
        self.rank * 8 + self.file
    }

    /// The two chars of the chess notation, such as "e4".
    pub open spec fn notation(self) -> Seq<char> {
        seq![((97 + self.file) as u8) as char, ((49 + self.rank) as u8) as char]
    }

    /// A position when both coordinates are on the board.
    pub fn new(file: u8, rank: u8) -> (r: Option<Self>)
        ensures
            r == (if file < 8 && rank < 8 {
                Some(Position { file, rank })
            } else {
                None
            }),
    {
        if file < 8 && rank < 8 {
            Some(Position { file, rank })
        } else {
            None
        }
    }

    /// Create position from chess notation (e.g., "a1", "h8").
    /// A two-byte notation must be two ASCII chars.
    pub fn from_chess_notation(notation: &str) -> (r: Option<Self>)
        requires
            notation.spec_bytes().len() == 2 ==> all_ascii(notation.spec_bytes()),
        ensures
            r == notation_position(notation.spec_bytes()),
    {
        let bytes = notation.as_bytes();
        if bytes.len() != 2 {
            return None;
        }
        Self::from_bytes(bytes[0], bytes[1])
    }

    /// The position named by a file letter byte and a rank digit byte.
    fn from_bytes(b0: u8, b1: u8) -> (r: Option<Self>)
        ensures
            r == position_from_bytes(b0, b1),
    {
        let file = match b0.checked_sub(97u8) {
            Some(f) => f,
            None => return None,
        };
        let rank = match b1.checked_sub(49u8) {
            Some(k) => k,
            None => return None,
        };
        Self::new(file, rank)
    }

    /// Convert to chess notation.
    pub fn to_chess_notation(&self) -> (r: String)
        requires
            97 + self.file < 256,
            49 + self.rank < 256,
        ensures
            r@ == self.notation(),
    {
        let mut s = String::new();
        push_char(&mut s, (97u8 + self.file) as char);
        push_char(&mut s, (49u8 + self.rank) as char);
        s
    }
}

/// Move representation for the UCI-like protocol.
#[derive(Debug, Clone, Copy, PartialEq, Eq, Structural)]
pub struct Move {
    pub from: Position,
    pub to: Position,
}

/// What the four-letter notation held in `bytes` stands for.
pub open spec fn notation_move(bytes: Seq<u8>) -> Option<Move> {
    if bytes.len() == 4 {
        match (position_from_bytes(bytes[0], bytes[1]), position_from_bytes(bytes[2], bytes[3])) {
            (Some(from), Some(to)) => Some(Move { from, to }),
            _ => None,
        }
    } else {
        None
    }
}

/// Whether reading the four bytes of a move notation fails on its text rather than on its
/// squares: the halves do not split at a char boundary (the third byte continues a char),
/// the first half is a single two-byte char, or the first half names a square and the second
/// is a single two-byte char.
pub open spec fn move_notation_panics(bytes: Seq<u8>) -> bool {
    &&& bytes.len() == 4
    &&& {
        ||| 128 <= bytes[2] < 192
        ||| bytes[0] >= 128
        ||| (position_from_bytes(bytes[0], bytes[1]) is Some && bytes[2] >= 128)
    }
}

impl Move {
    pub fn new(from: Position, to: Position) -> (r: Self)
        ensures
            r == (Move { from, to }),
    {
        Self { from, to }
    }

    /// The four chars of the notation, such as "a1b2".
    pub open spec fn notation(self) -> Seq<char> {
        self.from.notation() + self.to.notation()
    }

    /// Create move from chess notation (e.g., "a1b2").
    /// Each half of a four-byte notation must read as two ASCII chars, as far as it is read.
    pub fn from_notation(notation: &str) -> (r: Option<Self>)
        requires
            !move_notation_panics(notation.spec_bytes()),
        ensures
            r == notation_move(notation.spec_bytes()),
    {
        let bytes = notation.as_bytes();
        if bytes.len() != 4 {
            return None;
        }
        let from = match Position::from_bytes(bytes[0], bytes[1]) {
            Some(p) => p,
            None => return None,
        };
        let to = match Position::from_bytes(bytes[2], bytes[3]) {
            Some(p) => p,
            None => return None,
        };
        Some(Self::new(from, to))
    }

    /// Convert to chess notation.
    pub fn to_notation(&self) -> (r: String)
        requires
            97 + self.from.file < 256,
            49 + self.from.rank < 256,
            97 + self.to.file < 256,
            49 + self.to.rank < 256,
        ensures
            r@ == self.notation(),
    {
        let mut s = String::new();
        push_char(&mut s, (97u8 + self.from.file) as char);
        push_char(&mut s, (49u8 + self.from.rank) as char);
        push_char(&mut s, (97u8 + self.to.file) as char);
        push_char(&mut s, (49u8 + self.to.rank) as char);
        assert(s@ =~= self.notation());
        s
    }
}

} // verus!
