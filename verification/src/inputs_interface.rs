//! What a player is preparing to do: the tile they made active, and the
//! action they loaded, which gathers its input before it is sent as a
//! request.
use vstd::prelude::*;

use crate::forensic_action_descriptions::{decimal, decimal_text};
use crate::markets::{slot_index, InvaildIDErr, SlotInMarket};
use crate::players::{InventoryIndex, PlayerId};
use crate::requests::{ActionProcessCache, InputData, RequestType};
use crate::tile_mapping::TileId;
use crate::tiles::MarketTile;
use crate::world::{piece_on_tile, GameWorld, WorldView};

verus! {

/// The position of an order among the orders of the active piece.
#[derive(Debug, Clone, Copy, PartialEq, Eq, Structural)]
pub struct OrderAtPieceIndex(pub u8);

/// An action a player has loaded.
#[derive(Debug)]
pub enum FrontendAction {
    UseCard { index: InventoryIndex, cache: ActionProcessCache },
    UseOrder { index_of_order_on_active_piece: OrderAtPieceIndex, cache: ActionProcessCache },
    PurchaseCard { slot: SlotInMarket },
}

/// Every action but using a card is aimed at the active tile, and so needs
/// one.
pub open spec fn needs_active_tile(action: FrontendAction) -> bool {
    !(action is UseCard)
}

/// The input an action gathers, if it gathers any.
pub open spec fn cache_of(action: Option<FrontendAction>) -> Option<ActionProcessCache> {
    match action {
        Some(FrontendAction::UseCard { cache, .. }) => Some(cache),
        Some(FrontendAction::UseOrder { cache, .. }) => Some(cache),
        _ => None,
    }
}

/// `action` with the input it gathers replaced by `cache`.
pub open spec fn with_cache(action: Option<FrontendAction>, cache: ActionProcessCache) -> Option<
    FrontendAction,
> {
    match action {
        Some(FrontendAction::UseCard { index, .. }) => Some(FrontendAction::UseCard { index, cache }),
        Some(FrontendAction::UseOrder { index_of_order_on_active_piece, .. }) => Some(
            FrontendAction::UseOrder { index_of_order_on_active_piece, cache },
        ),
        _ => action,
    }
}

/// `input` holds the tiles selected so far in `cache`, in order.
pub open spec fn carries_selections(input: InputData, cache: ActionProcessCache) -> bool {
    input matches InputData::SelectedTiles(tiles) && tiles@ == cache->TileAction_0.selections@.selections
}

#[derive(Debug)]
pub enum LoadActionError {
    /// The action requires a tile to be active.
    ActiveTileMissing(FrontendAction),
}

/// The active tile and the loaded action of a player.
#[derive(Debug)]
pub struct ActionInputManager {
    active_tile: Option<TileId>,
    loaded_action: Option<FrontendAction>,
}

pub struct ActionInputManagerView {
    pub active_tile: Option<TileId>,
    pub loaded_action: Option<FrontendAction>,
}

impl View for ActionInputManager {
    type V = ActionInputManagerView;

    closed spec fn view(&self) -> ActionInputManagerView {
        ActionInputManagerView { active_tile: self.active_tile, loaded_action: self.loaded_action }
    }
}

impl ActionInputManagerView {
    /// An action that needs an active tile is only loaded while a tile is
    /// active.
    pub open spec fn wf(&self) -> bool {
        self.loaded_action matches Some(a) && needs_active_tile(a) ==> self.active_tile is Some
    }
}

impl Default for ActionInputManager {
    /// No active tile and no loaded action.
    fn default() -> (r: Self)
        ensures
            r@.active_tile is None,
            r@.loaded_action is None,
    {
        ActionInputManager { active_tile: None, loaded_action: None }
    }
}

impl ActionInputManager {
    pub fn active_tile(&self) -> (r: Option<TileId>)
        ensures
            r == self@.active_tile,
    {
        self.active_tile
    }

    pub fn loaded_action(&self) -> (r: Option<&FrontendAction>)
        ensures
            r is None <==> self@.loaded_action is None,
            r matches Some(a) ==> self@.loaded_action == Some(*a),
    {
        match &self.loaded_action {
            Some(a) => Some(a),
            None => None,
        }
    }

    /// The input the loaded action gathers, if it gathers any.
    pub fn process_cache(&self) -> (r: Option<&ActionProcessCache>)
        ensures
            r is None <==> cache_of(self@.loaded_action) is None,
            r matches Some(c) ==> cache_of(self@.loaded_action) == Some(*c),
    {
        match &self.loaded_action {
            Some(FrontendAction::UseCard { cache, .. }) => Some(cache),
            Some(FrontendAction::UseOrder { cache, .. }) => Some(cache),
            _ => None,
        }
    }

    /// The input the loaded action gathers, if it gathers any, to be worked
    /// on.
    pub fn process_cache_mut(&mut self) -> (r: Option<&mut ActionProcessCache>)
        ensures
            r is None <==> cache_of(old(self)@.loaded_action) is None,
            r is None ==> final(self)@ == old(self)@,
            r matches Some(c) ==> {
                &&& cache_of(old(self)@.loaded_action) == Some(*c)
                &&& final(self)@.active_tile == old(self)@.active_tile
                &&& final(self)@.loaded_action == with_cache(
                    old(self)@.loaded_action,
                    *final(c),
                )
            },
            old(self)@.wf() ==> final(self)@.wf(),
    {
        match &mut self.loaded_action {
            Some(FrontendAction::UseCard { cache, .. }) => Some(cache),
            Some(FrontendAction::UseOrder { cache, .. }) => Some(cache),
            _ => None,
        }
    }

    /// Loads `action`, or unloads the loaded action when given none. An
    /// action aimed at the active tile is refused while no tile is active,
    /// leaving the manager as it was.
    pub fn try_load_action(&mut self, action: Option<FrontendAction>) -> (r: Result<
        (),
        LoadActionError,
    >)
        ensures
            final(self)@.active_tile == old(self)@.active_tile,
            match action {
                Some(a) => if needs_active_tile(a) && old(self)@.active_tile is None {
                    r == Err::<(), LoadActionError>(LoadActionError::ActiveTileMissing(a))
                        && final(self)@.loaded_action == old(self)@.loaded_action
                } else {
                    r is Ok && final(self)@.loaded_action == Some(a)
                },
                None => r is Ok && final(self)@.loaded_action is None,
            },
            old(self)@.wf() ==> final(self)@.wf(),
    {
        if let Some(action) = action {
            match &action {
                FrontendAction::UseCard { .. } => {
                    self.loaded_action = Some(action);
                },
                _ => {
                    if self.active_tile.is_none() {
                        return Err(LoadActionError::ActiveTileMissing(action));
                    }
                    self.loaded_action = Some(action);
                },
            }
        } else {
            self.loaded_action = None;
        }
        Ok(())
    }

    /// Makes `tile` the active tile (or none); an action aimed at the
    /// previously active tile is unloaded.
    pub fn set_active_tile(&mut self, tile: Option<TileId>)
        ensures
            final(self)@.active_tile == tile,
            final(self)@.loaded_action == match old(self)@.loaded_action {
                Some(a) => if needs_active_tile(a) {
                    None
                } else {
                    Some(a)
                },
                None => None,
            },
            final(self)@.wf(),
    {
        self.active_tile = tile;
        if self.loaded_action.is_none() {
            return ;
        }
        match &self.loaded_action {
            Some(FrontendAction::UseCard { .. }) => {},
            _ => self.loaded_action = None,
        }
    }

    /// The request that executing the loaded action makes: with the tiles
    /// selected so far as input, aimed at the active tile where the action
    /// needs one. With no action loaded there is none.
    pub fn loaded_request(&self) -> (r: Option<RequestType>)
        requires
            self@.wf(),
            cache_of(self@.loaded_action) matches Some(c) ==> c is TileAction,
        ensures
            match self@.loaded_action {
                None => r is None,
                Some(FrontendAction::UseCard { index, cache }) => r matches Some(
                    RequestType::UseCard { inventory_index, input },
                ) && inventory_index == index && carries_selections(input, cache),
                Some(FrontendAction::UseOrder { index_of_order_on_active_piece, cache }) => r matches Some(
                    RequestType::UseOrder { tile, input, index_of_order },
                ) && Some(tile) == self@.active_tile && index_of_order
                    == index_of_order_on_active_piece.0 && carries_selections(input, cache),
                Some(FrontendAction::PurchaseCard { slot }) => r matches Some(
                    RequestType::PurchaseCard { market_tile, slot_in_market },
                ) && Some(market_tile) == self@.active_tile && slot_in_market == slot,
            },
    {
        match &self.loaded_action {
            None => None,
            Some(FrontendAction::UseCard { index, cache }) => {
                let input = match cache {
                    ActionProcessCache::TileAction(tile_action_process_cache) => InputData::SelectedTiles(
                        vstd::slice::slice_to_vec(tile_action_process_cache.selected_tiles()),
                    ),
                    ActionProcessCache::Ex1 => {
                        assert(false);
                        InputData::Ex1
                    },
                };
                Some(RequestType::UseCard { inventory_index: *index, input })
            },
            Some(FrontendAction::UseOrder { index_of_order_on_active_piece, cache }) => {
                let input = match cache {
                    ActionProcessCache::TileAction(tile_action_process_cache) => InputData::SelectedTiles(
                        vstd::slice::slice_to_vec(tile_action_process_cache.selected_tiles()),
                    ),
                    ActionProcessCache::Ex1 => {
                        assert(false);
                        InputData::Ex1
                    },
                };
                let tile = match self.active_tile {
                    Some(tile) => tile,
                    None => {
                        assert(false);
                        TileId(0)
                    },
                };
                Some(
                    RequestType::UseOrder {
                        tile,
                        input,
                        index_of_order: index_of_order_on_active_piece.0,
                    },
                )
            },
            Some(FrontendAction::PurchaseCard { slot }) => {
                let market_tile = match self.active_tile {
                    Some(tile) => tile,
                    None => {
                        assert(false);
                        TileId(0)
                    },
                };
                Some(RequestType::PurchaseCard { market_tile, slot_in_market: *slot })
            },
        }
    }
}

/// Why a loaded action cannot be executed yet.
#[derive(Debug, Clone, Copy, PartialEq, Eq, Structural)]
pub enum Blocker {
    /// This many more tiles must be selected.
    SelectMoreTiles(usize),
    PieceOutOfOrders,
    NotYourPiece,
    OutOfOrders,
    InventoryFull,
    MarketNotOccupied,
    InsufficientFunds,
    NotYourTurn,
}

impl Blocker {
    /// The message shown to the player.
    pub open spec fn spec_message(&self) -> Seq<char> {
        match self {
            Blocker::SelectMoreTiles(n) => "select at least "@ + decimal(*n as nat) + " more tiles"@,
            Blocker::PieceOutOfOrders => "Piece is out of orders this round"@,
            Blocker::NotYourPiece => "You do not own this piece."@,
            Blocker::OutOfOrders => "You are out of orders this round"@,
            Blocker::InventoryFull => "Inventory is full"@,
            Blocker::MarketNotOccupied => "You do not occupy this market."@,
            Blocker::InsufficientFunds => "Insufficient funds"@,
            Blocker::NotYourTurn => "It is not your turn"@,
        }
    }

    pub fn message(&self) -> (r: String)
        ensures
            r@ == self.spec_message(),
    {
        match self {
            Blocker::SelectMoreTiles(n) => {
                let mut text = String::from_str("select at least ");
                let count = decimal_text(*n as u64);
                text.append(count.as_str());
                text.append(" more tiles");
                text
            },
            Blocker::PieceOutOfOrders => String::from_str("Piece is out of orders this round"),
            Blocker::NotYourPiece => String::from_str("You do not own this piece."),
            Blocker::OutOfOrders => String::from_str("You are out of orders this round"),
            Blocker::InventoryFull => String::from_str("Inventory is full"),
            Blocker::MarketNotOccupied => String::from_str("You do not occupy this market."),
            Blocker::InsufficientFunds => String::from_str("Insufficient funds"),
            Blocker::NotYourTurn => String::from_str("It is not your turn"),
        }
    }
}

/// The blockers of an action could not be worked out, because what they
/// depend on is missing.
#[derive(Debug, Clone, Copy, PartialEq, Eq, Structural)]
pub enum BlockerError {
    NoLoadedAction,
    NoActiveTile,
    TileOffBoard(TileId),
    VacantActiveTile,
    NotAMarketTile,
    InvalidMarketId(InvaildIDErr),
}

/// Too few tiles are selected for the action's input.
pub open spec fn selection_blocker(action: FrontendAction) -> Option<Blocker> {
    match cache_of(Some(action)) {
        Some(ActionProcessCache::TileAction(c)) => if c.action.tile_range_for_execution.start
            > c.selections@.selections.len() {
            Some(
                Blocker::SelectMoreTiles(
                    (c.action.tile_range_for_execution.start
                        - c.selections@.selections.len()) as usize,
                ),
            )
        } else {
            None
        },
        _ => None,
    }
}

/// It is someone else's turn.
pub open spec fn turn_blocker(world: WorldView, operating_player: PlayerId) -> Option<Blocker> {
    if operating_player != world.active_player {
        Some(Blocker::NotYourTurn)
    } else {
        None
    }
}

/// What keeps the order on the piece of `tile` from being executed by
/// `operating_player`.
pub open spec fn order_blockers(world: WorldView, operating_player: PlayerId, tile: TileId) -> Result<
    Option<Blocker>,
    BlockerError,
> {
    if tile.0 >= world.tiles.len() {
        Err(BlockerError::TileOffBoard(tile))
    } else {
        match piece_on_tile(world.pieces, tile) {
            None => Err(BlockerError::VacantActiveTile),
            Some(k) => {
                let piece = world.pieces[k];
                if piece.orders_receivable.currently == 0 {
                    Ok(Some(Blocker::PieceOutOfOrders))
                } else if piece.owner != Some(operating_player) {
                    Ok(Some(Blocker::NotYourPiece))
                } else if world.players[operating_player.0 as int].orders_remaining == 0 {
                    Ok(Some(Blocker::OutOfOrders))
                } else {
                    Ok(turn_blocker(world, operating_player))
                }
            },
        }
    }
}

/// What keeps `operating_player` from buying the card in `slot` of the
/// market on `tile`.
pub open spec fn purchase_blockers(
    world: WorldView,
    operating_player: PlayerId,
    tile: TileId,
    slot: SlotInMarket,
) -> Result<Option<Blocker>, BlockerError> {
    if tile.0 >= world.tiles.len() {
        Err(BlockerError::TileOffBoard(tile))
    } else {
        match world.tiles[tile.0 as int].market {
            None => Err(BlockerError::NotAMarketTile),
            Some(MarketTile(market)) => {
                let occupied = piece_on_tile(world.pieces, tile) matches Some(k)
                    && world.pieces[k].owner == Some(operating_player);
                let player = world.players[operating_player.0 as int];
                if occupied && player.hand.len() >= player.max_size {
                    Ok(Some(Blocker::InventoryFull))
                } else if !occupied {
                    Ok(Some(Blocker::MarketNotOccupied))
                } else if market.0 >= world.markets.len() {
                    Err(BlockerError::InvalidMarketId(InvaildIDErr(market)))
                } else if player.coins < world.markets[market.0 as int].0[slot_index(
                    slot,
                )].1.0 {
                    Ok(Some(Blocker::InsufficientFunds))
                } else {
                    Ok(turn_blocker(world, operating_player))
                }
            },
        }
    }
}

/// What keeps the action loaded in `manager` from being executed by
/// `operating_player`: first too few selected tiles, then what the kind of
/// action needs, and last whose turn it is.
pub open spec fn action_blockers_of(
    manager: ActionInputManagerView,
    world: WorldView,
    operating_player: PlayerId,
) -> Result<Option<Blocker>, BlockerError> {
    match manager.loaded_action {
        None => Err(BlockerError::NoLoadedAction),
        Some(action) => match selection_blocker(action) {
            Some(b) => Ok(Some(b)),
            None => match action {
                FrontendAction::UseCard { .. } => Ok(turn_blocker(world, operating_player)),
                FrontendAction::UseOrder { .. } => match manager.active_tile {
                    None => Err(BlockerError::NoActiveTile),
                    Some(tile) => order_blockers(world, operating_player, tile),
                },
                FrontendAction::PurchaseCard { slot } => match manager.active_tile {
                    None => Err(BlockerError::NoActiveTile),
                    Some(tile) => purchase_blockers(world, operating_player, tile, slot),
                },
            },
        },
    }
}

/// What keeps the loaded action from being executed by `operating_player`,
/// if anything.
pub fn action_blockers(
    action_manager: &ActionInputManager,
    world: &GameWorld,
    operating_player: PlayerId,
) -> (r: Result<Option<Blocker>, BlockerError>)
    requires
        world.wf(),
        (operating_player.0 as int) < world@.players.len(),
    ensures
        r == action_blockers_of(action_manager@, world@, operating_player),
{
    let action = match action_manager.loaded_action() {
        Some(action) => action,
        None => {
            return Err(BlockerError::NoLoadedAction);
        },
    };
    let cache = match action {
        FrontendAction::UseCard { cache, .. } => Some(cache),
        FrontendAction::UseOrder { cache, .. } => Some(cache),
        FrontendAction::PurchaseCard { .. } => None,
    };
    if let Some(ActionProcessCache::TileAction(cache)) = cache {
        if cache.selection_bounds().start > cache.amount_currently_selected() {
            return Ok(
                Some(
                    Blocker::SelectMoreTiles(
                        cache.selection_bounds().start - cache.amount_currently_selected(),
                    ),
                ),
            );
        }
    }
    let p = operating_player.0 as usize;
    proof {
        assert(world@.players[p as int] == world.players@[p as int]@);
    }
    match action {
        FrontendAction::UseCard { .. } => {},
        FrontendAction::UseOrder { .. } => {
            let tile = match action_manager.active_tile() {
                Some(tile) => tile,
                None => {
                    return Err(BlockerError::NoActiveTile);
                },
            };
            if tile.0 as usize >= world.tiles.len() {
                return Err(BlockerError::TileOffBoard(tile));
            }
            let k = match world.find_piece_on_tile(tile) {
                Some(k) => k,
                None => {
                    return Err(BlockerError::VacantActiveTile);
                },
            };
            if world.pieces[k].orders_receivable.currently == 0 {
                return Ok(Some(Blocker::PieceOutOfOrders));
            }
            let owned = match world.pieces[k].owner {
                Some(owner) => owner == operating_player,
                None => false,
            };
            if !owned {
                return Ok(Some(Blocker::NotYourPiece));
            }
            if world.players[p].orders_remaining.remaining == 0 {
                return Ok(Some(Blocker::OutOfOrders));
            }
        },
        FrontendAction::PurchaseCard { slot } => {
            let tile = match action_manager.active_tile() {
                Some(tile) => tile,
                None => {
                    return Err(BlockerError::NoActiveTile);
                },
            };
            if tile.0 as usize >= world.tiles.len() {
                return Err(BlockerError::TileOffBoard(tile));
            }
            let browsed_market = match world.tiles[tile.0 as usize].market {
                Some(MarketTile(market)) => market,
                None => {
                    return Err(BlockerError::NotAMarketTile);
                },
            };
            let occupied = match world.find_piece_on_tile(tile) {
                Some(k) => match world.pieces[k].owner {
                    Some(owner) => owner == operating_player,
                    None => false,
                },
                None => false,
            };
            if occupied {
                let inventory = &world.players[p].inventory;
                if inventory.all_cards().len() >= inventory.max_card_capacity() as usize {
                    return Ok(Some(Blocker::InventoryFull));
                }
            } else {
                return Ok(Some(Blocker::MarketNotOccupied));
            }
            let market = match world.markets.get_market(browsed_market) {
                Ok(market) => market,
                Err(e) => {
                    return Err(BlockerError::InvalidMarketId(e));
                },
            };
            let price_of_card = market.get_card_and_price(*slot).1.0;
            if world.players[p].coins.0 < price_of_card {
                return Ok(Some(Blocker::InsufficientFunds));
            }
        },
    }
    if operating_player != world.active_player.0 {
        return Ok(Some(Blocker::NotYourTurn));
    }
    Ok(None)
}

} // verus!
