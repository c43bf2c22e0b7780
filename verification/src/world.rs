//! The state of a game: the board, the pieces on it, the players, and the
//! rules (cards, markets, orders and piece archetypes) the game was created
//! with.
use vstd::prelude::*;

use crate::cards::{CardDirectory, CardId, LogicalCard};
use crate::markets::{LogicalMarket, MarketDirectory};
use crate::orders::{LogicalOrder, OrderDirectory};
use crate::pieces::{ArchetypeDirectory, LogicalPiece, LogicalPieceArchetype};
use crate::players::{ActivePlayer, LifeState, LogicalPlayer, PlayerId, PlayerState};
use crate::tile_mapping::{TileId, TileIdServer};
use crate::tiles::LogicalTile;

verus! {

/// The largest number of tiles a board may have: every tile of such a board
/// lies on ring `MAX_RING - 1` or closer, so that its neighbours can still be
/// named.
pub const BOARD_TILE_LIMIT: usize = 2147249287;

/// The whole state of one game.
#[derive(Debug)]
pub struct GameWorld {
    /// The tiles of the board, indexed by tile id.
    pub tiles: Vec<LogicalTile>,
    /// The pieces on the board, in the order they were spawned.
    pub pieces: Vec<LogicalPiece>,
    /// The players, indexed by player id.
    pub players: Vec<LogicalPlayer>,
    pub active_player: ActivePlayer,
    pub cards: CardDirectory,
    pub markets: MarketDirectory,
    pub orders: OrderDirectory,
    pub archetypes: ArchetypeDirectory,
}

/// A player as the rules see it.
#[verifier::ext_equal]
pub struct PlayerView {
    /// The cards held, in the order they were received.
    pub hand: Seq<CardId>,
    pub max_size: u8,
    pub coins: u32,
    pub state: PlayerState,
    pub orders_remaining: u8,
}

impl View for LogicalPlayer {
    type V = PlayerView;

    open spec fn view(&self) -> PlayerView {
        PlayerView {
            hand: self.inventory@.hand,
            max_size: self.inventory@.max_size,
            coins: self.coins.0,
            state: self.state,
            orders_remaining: self.orders_remaining.remaining,
        }
    }
}

/// A game as the rules see it.
#[verifier::ext_equal]
pub struct WorldView {
    pub tiles: Seq<LogicalTile>,
    pub pieces: Seq<LogicalPiece>,
    pub players: Seq<PlayerView>,
    pub active_player: PlayerId,
    pub cards: Seq<LogicalCard>,
    pub markets: Seq<LogicalMarket>,
    pub orders: Seq<LogicalOrder>,
    pub archetypes: Seq<LogicalPieceArchetype>,
}

impl View for GameWorld {
    type V = WorldView;

    open spec fn view(&self) -> WorldView {
        WorldView {
            tiles: self.tiles@,
            pieces: self.pieces@,
            players: self.players@.map_values(|p: LogicalPlayer| p@),
            active_player: self.active_player.0,
            cards: self.cards.0@,
            markets: self.markets.0@,
            orders: self.orders.0@,
            archetypes: self.archetypes.0@,
        }
    }
}

/// A piece stands on the board and, if owned, is owned by a player of the
/// game.
pub open spec fn piece_wf(piece: LogicalPiece, tile_count: int, player_count: int) -> bool {
    &&& (piece.occupies.0 as int) < tile_count
    &&& piece.owner matches Some(owner) ==> (owner.0 as int) < player_count
}

/// Some piece stands on `tile`.
pub open spec fn tile_occupied(pieces: Seq<LogicalPiece>, tile: TileId) -> bool {
    exists|i: int| 0 <= i < pieces.len() && pieces[i].occupies == tile
}

/// `i` is the first piece (in spawn order) that stands on `tile`.
pub open spec fn is_first_piece_on(pieces: Seq<LogicalPiece>, tile: TileId, i: int) -> bool {
    &&& 0 <= i < pieces.len()
    &&& pieces[i].occupies == tile
    &&& forall|j: int| 0 <= j < i ==> pieces[j].occupies != tile
}

/// The piece standing on `tile`, if any: the first one spawned, should
/// there be several.
pub open spec fn piece_on_tile(pieces: Seq<LogicalPiece>, tile: TileId) -> Option<int> {
    if tile_occupied(pieces, tile) {
        Some(choose|i: int| is_first_piece_on(pieces, tile, i))
    } else {
        None
    }
}

/// A player with a win condition on the board, or none yet, is alive; a
/// player whose win conditions are all gone is dead.
pub open spec fn life_state(world: WorldView, player: int) -> LifeState {
    match world.players[player].state {
        PlayerState::HasNoWinConditionYet => LifeState::Alive,
        PlayerState::Dead => LifeState::Dead,
        PlayerState::Alive => if exists|i: int|
            0 <= i < world.pieces.len() && world.pieces[i].is_win_condition
                && world.pieces[i].owner == Some(PlayerId(player as u8)) {
            LifeState::Alive
        } else {
            LifeState::Dead
        },
    }
}

/// The rules a game was created with have not changed.
pub open spec fn same_rules(a: &GameWorld, b: &GameWorld) -> bool {
    &&& a.cards.0@ == b.cards.0@
    &&& a.markets.0@ == b.markets.0@
    &&& a.orders.0@ == b.orders.0@
    &&& a.archetypes.0@ == b.archetypes.0@
}

/// Whether a piece with owner `owner` is owned by `player`.
pub fn owned_by(owner: Option<PlayerId>, player: PlayerId) -> (r: bool)
    ensures
        r == (owner == Some(player)),
{
    match owner {
        Some(o) => o == player,
        None => false,
    }
}

impl WorldView {
    /// The board fits the conversions between ids and coordinates, player
    /// ids fit a `u8`, the active player exists, and every piece stands on
    /// the board and is owned, if at all, by a player of the game.
    pub open spec fn wf(&self) -> bool {
        &&& self.tiles.len() <= BOARD_TILE_LIMIT
        &&& self.players.len() <= 256
        &&& (self.active_player.0 as int) < self.players.len()
        &&& forall|i: int|
            #![trigger self.pieces[i]]
            0 <= i < self.pieces.len() ==> piece_wf(
                self.pieces[i],
                self.tiles.len() as int,
                self.players.len() as int,
            )
    }
}

impl GameWorld {
    pub open spec fn wf(&self) -> bool {
        self@.wf()
    }

    /// The server that hands out the ids of this board's tiles.
    pub fn tile_id_server(&self) -> (r: TileIdServer)
        requires
            self.tiles@.len() <= BOARD_TILE_LIMIT,
        ensures
            r.total_tiles_on_board == self.tiles@.len(),
    {
        TileIdServer { total_tiles_on_board: self.tiles.len() as u32 }
    }

    /// The position in `pieces` of the piece standing on `tile`.
    pub fn find_piece_on_tile(&self, tile: TileId) -> (r: Option<usize>)
        ensures
            r matches Some(i) ==> piece_on_tile(self.pieces@, tile) == Some(i as int)
                && is_first_piece_on(self.pieces@, tile, i as int),
            r is None ==> piece_on_tile(self.pieces@, tile) is None,
    {
        let mut i: usize = 0;
        while i < self.pieces.len()
            invariant
                0 <= i <= self.pieces@.len(),
                forall|j: int| 0 <= j < i ==> self.pieces@[j].occupies != tile,
            decreases self.pieces@.len() - i,
        {
            if self.pieces[i].occupies == tile {
                proof {
                    lemma_first_piece_on(self.pieces@, tile, i as int);
                }
                return Some(i);
            }
            i = i + 1;
        }
        None
    }

    /// Whether `player` is still in the game.
    pub fn compute_player_state(&self, player: PlayerId) -> (r: LifeState)
        requires
            (player.0 as int) < self.players@.len(),
        ensures
            r == life_state(self@, player.0 as int),
    {
        assert(self@.players[player.0 as int] == self.players@[player.0 as int]@);
        match self.players[player.0 as usize].state {
            PlayerState::HasNoWinConditionYet => LifeState::Alive,
            PlayerState::Dead => LifeState::Dead,
            PlayerState::Alive => {
                let mut i: usize = 0;
                while i < self.pieces.len()
                    invariant
                        0 <= i <= self.pieces@.len(),
                        (player.0 as int) < self.players@.len(),
                        self.players@[player.0 as int].state == PlayerState::Alive,
                        forall|j: int|
                            0 <= j < i ==> !(self.pieces@[j].is_win_condition
                                && self.pieces@[j].owner == Some(player)),
                    decreases self.pieces@.len() - i,
                {
                    if self.pieces[i].is_win_condition && owned_by(self.pieces[i].owner, player) {
                        assert(PlayerId((player.0 as int) as u8) == player);
                        assert(exists|k: int|
                            0 <= k < self@.pieces.len() && self@.pieces[k].is_win_condition
                                && self@.pieces[k].owner == Some(
                                PlayerId((player.0 as int) as u8),
                            )) by {
                            assert(self@.pieces[i as int].owner == Some(
                                PlayerId((player.0 as int) as u8),
                            ));
                        }
                        return LifeState::Alive;
                    }
                    i = i + 1;
                }
                assert(PlayerId((player.0 as int) as u8) == player);
                LifeState::Dead
            },
        }
    }
}

/// `piece` is a win condition of `player`: the tower they must keep.
pub open spec fn is_tower_of(piece: LogicalPiece, player: PlayerId) -> bool {
    piece.is_win_condition && piece.owner == Some(player)
}

/// The tile of `player`'s tower: the first one spawned, should there be
/// several; none if the player has no tower.
pub fn tower_of_player(world: &GameWorld, player: PlayerId) -> (r: Option<TileId>)
    ensures
        r is None <==> !exists|k: int| 0 <= k < world.pieces@.len() && is_tower_of(world.pieces@[k], player),
        r matches Some(tile) ==> exists|k: int|
            0 <= k < world.pieces@.len() && is_tower_of(world.pieces@[k], player)
                && world.pieces@[k].occupies == tile && forall|j: int|
                0 <= j < k ==> !is_tower_of(world.pieces@[j], player),
{
    let mut i: usize = 0;
    while i < world.pieces.len()
        invariant
            0 <= i <= world.pieces@.len(),
            forall|j: int| 0 <= j < i ==> !is_tower_of(world.pieces@[j], player),
        decreases world.pieces@.len() - i,
    {
        if world.pieces[i].is_win_condition && owned_by(world.pieces[i].owner, player) {
            assert(is_tower_of(world.pieces@[i as int], player));
            return Some(world.pieces[i].occupies);
        }
        i = i + 1;
    }
    None
}

/// The first piece on a tile is the one `piece_on_tile` names.
pub proof fn lemma_first_piece_on(pieces: Seq<LogicalPiece>, tile: TileId, i: int)
    requires
        is_first_piece_on(pieces, tile, i),
    ensures
        piece_on_tile(pieces, tile) == Some(i),
{
    assert(tile_occupied(pieces, tile));
    let k = choose|k: int| is_first_piece_on(pieces, tile, k);
    assert(is_first_piece_on(pieces, tile, k));
    if k < i {
        assert(pieces[k].occupies != tile);
    } else if i < k {
        assert(pieces[i].occupies != tile);
    }
}

/// If some piece stands on a tile, a first one does.
pub proof fn lemma_piece_on_tile_exists(pieces: Seq<LogicalPiece>, tile: TileId, i: int)
    requires
        0 <= i < pieces.len(),
        pieces[i].occupies == tile,
    ensures
        piece_on_tile(pieces, tile) matches Some(k) && is_first_piece_on(pieces, tile, k),
    decreases i,
{
    if forall|j: int| 0 <= j < i ==> pieces[j].occupies != tile {
        lemma_first_piece_on(pieces, tile, i);
    } else {
        let j = choose|j: int| 0 <= j < i && pieces[j].occupies == tile;
        lemma_piece_on_tile_exists(pieces, tile, j);
    }
}

/// The piece `piece_on_tile` names is the first one standing on the tile.
pub proof fn lemma_piece_on_tile_valid(pieces: Seq<LogicalPiece>, tile: TileId)
    ensures
        piece_on_tile(pieces, tile) matches Some(k) ==> is_first_piece_on(pieces, tile, k),
{
    if tile_occupied(pieces, tile) {
        let i = choose|i: int| 0 <= i < pieces.len() && pieces[i].occupies == tile;
        lemma_piece_on_tile_exists(pieces, tile, i);
    }
}

} // verus!
