//! What the isometric view draws on each square, and in which order.

use vstd::prelude::*;

use crate::position::{square, Position};
use crate::unit::{PieceType, Terrain};

verus! {

/// The name of the tile texture that shows a terrain.
pub open spec fn terrain_texture_name(t: Terrain) -> Seq<char> {
    match t {
        Terrain::SingleBuilding | Terrain::DoubleBuilding => "double"@,
        Terrain::Forest => "trees"@,
        Terrain::Mountain => "mountain"@,
        Terrain::Water => "water"@,
        _ => "ground"@,
    }
}

/// The name of the texture that shows a unit of a type.
pub open spec fn piece_texture_name(t: PieceType) -> Seq<char> {
    match t {
        PieceType::Mech => "mech"@,
        PieceType::Leaper => "leaper"@,
    }
}

/// The texture that shows a terrain.
pub fn terrain_texture(t: Terrain) -> (r: &'static str)
    ensures
        r@ == terrain_texture_name(t),
{
    match t {
        Terrain::Grass => "ground",
        Terrain::SingleBuilding | Terrain::DoubleBuilding => "double",
        Terrain::Forest => "trees",
        Terrain::Mountain => "mountain",
        Terrain::Water => "water",
        Terrain::MonsterIngress | Terrain::PowerGenerator | Terrain::Landmine | Terrain::Rocket => "ground",
    }
}

/// The texture that shows a unit of a type.
pub fn piece_texture(t: PieceType) -> (r: &'static str)
    ensures
        r@ == piece_texture_name(t),
{
    match t {
        PieceType::Mech => "mech",
        PieceType::Leaper => "leaper",
    }
}

/// The squares from back to front, the order in which the isometric view draws them so
/// that nearer tiles cover farther ones: from h8 down the ranks and files to a1.
pub fn draw_order() -> (r: Vec<Position>)
    ensures
        r@.len() == 64,
        forall|k: int| 0 <= k < 64 ==> #[trigger] r@[k] == square(63 - k),
{
    let mut r: Vec<Position> = Vec::new();
    let mut rank: u8 = 8;
    while rank > 0
        invariant
            rank <= 8,
            r@.len() == 8 * (8 - rank),
            forall|k: int| 0 <= k < r@.len() ==> #[trigger] r@[k] == square(63 - k),
        decreases rank,
    {
        rank = rank - 1;
        let mut file: u8 = 8;
        while file > 0
            invariant
                rank < 8,
                file <= 8,
                r@.len() == 8 * (7 - rank) + (8 - file),
                forall|k: int| 0 <= k < r@.len() ==> #[trigger] r@[k] == square(63 - k),
            decreases file,
        {
            file = file - 1;
            let ghost k = r@.len() as int;
            assert(63 - k == rank * 8 + file);
            assert(square(63 - k) == Position { file, rank });
            r.push(Position { file, rank });
        }
    }
    r
}

} // verus!
