//! The tiles of the board.
use vstd::prelude::*;

use crate::markets::MarketId;
use crate::tile_mapping::spec_tiles_on_board;

verus! {

#[derive(Debug, Clone, Copy, PartialEq, Eq, Structural, Hash)]
pub enum TileType {
    Basic,
    Ex1,
}

/// Marks a tile on which a market stands.
#[derive(Debug, Clone, Copy, PartialEq, Eq, Structural)]
pub struct MarketTile(pub MarketId);

/// A tile of the board: its type, and the market on it, if any.
#[derive(Debug, Clone, Copy, PartialEq, Eq, Structural)]
pub struct LogicalTile {
    pub tile_type: TileType,
    pub market: Option<MarketTile>,
}

/// A fresh tile: basic, with no market.
pub open spec fn fresh_tile() -> LogicalTile {
    LogicalTile { tile_type: TileType::Basic, market: None }
}

/// The tiles of a fresh board with `ring_count` rings around tile zero.
pub fn initialize_tiles(ring_count: u32) -> (r: Vec<LogicalTile>)
    requires
        spec_tiles_on_board(ring_count as int) <= u32::MAX,
    ensures
        r@ == Seq::new(spec_tiles_on_board(ring_count as int) as nat, |i: int| fresh_tile()),
{
    let total_tiles_on_board = crate::tile_mapping::tiles_on_board(ring_count);
    let mut tiles: Vec<LogicalTile> = Vec::new();
    let mut id: u32 = 0;
    while id < total_tiles_on_board
        invariant
            id <= total_tiles_on_board,
            tiles@ == Seq::new(id as nat, |i: int| fresh_tile()),
        decreases total_tiles_on_board - id,
    {
        tiles.push(LogicalTile { tile_type: TileType::Basic, market: None });
        proof {
            assert(tiles@ =~= Seq::new((id + 1) as nat, |i: int| fresh_tile()));
        }
        id = id + 1;
    }
    tiles
}

} // verus!
