//! Requests that players make of the game, and the log of effects that
//! answering them produces.
use vstd::prelude::*;

use crate::forensic_action_descriptions::{views_of, ForensicDescribe, TextSnippet};

use crate::cards::{card_selection_bounds, card_tile_action, CardFunctionConversionError, CardId};
use crate::markets::{slot_index, MarketId, SlotInMarket};
use crate::orders::{
    order_selection_bounds, order_tile_action, OrderFunction, OrderFunctionConversionError, OrderId,
};
use crate::pieces::{spawned_piece, LogicalPiece, OrdersReceivable};
use crate::pieces::{ArchetypeId, FacingHexDirection};
use crate::players::{
    apply_end_turn_effects, apply_start_turn_effects, end_turn, end_turn_fits, end_turn_log,
    orders_at_turn_start, start_turn, InventoryError, InventoryIndex, LifeState, PlayerId,
    PlayerState,
};
use crate::tile_based_actions::selection_mechanics::{InvalidSelection, SelectedTile, State};
use crate::tile_based_actions::{
    states_after_selection, SelectedTooFewTiles, TileAction, TileActionProcessCache,
};
use crate::tile_mapping::TileId;
use crate::tiles::TileType;
use crate::tiles::MarketTile;
use crate::world::{life_state, owned_by, piece_on_tile, GameWorld, PlayerView, WorldView};

verus! {

/// One change that answering a request made to the game.
#[derive(Debug, Clone, Copy, PartialEq, Eq, Structural)]
#[allow(inconsistent_fields)]
pub enum ActionEffect {
    ConvertedTileType { tile: TileId, new_type: TileType },
    SpawnedNewMarket { tile: TileId, market: MarketId },
    SpawnedPiece {
        tile: TileId,
        player: PlayerId,
        archetype: ArchetypeId,
        facing_direction: FacingHexDirection,
    },
    AddedCardToInventory { player: PlayerId, card: CardId },
    AlteredCoins { player: PlayerId, delta_coins: i32, from_tile: Option<TileId> },
    EndedTurn(PlayerId),
    BeganTurn(PlayerId),
    RemovedCardFromInventory { player: PlayerId, index: InventoryIndex },
    IncreasedRemainingOrdersOfPiece { tile_of_piece: TileId },
    ReducedRemainingOrdersOfPiece { tile_of_piece: TileId },
    ReducedRemaingOrdersOfPlayer(PlayerId),
    IncreasedRemainingOrdersOfPlayer { receipient: PlayerId, source: Option<TileId> },
    DamagedPiece { on_tile: TileId, hp_removed: u32 },
    HealedPiece { on_tile: TileId, hp_added: u32 },
    PieceKilled { on_tile: TileId },
    GameOver { winner: Option<PlayerId> },
    PieceRotated { on_tile: TileId, new_rotation: FacingHexDirection },
    PieceMoved { from_tile: TileId, to_tile: TileId },
    PlayerDied(PlayerId),
}

/// The effects of a request, in the order they happened.
#[derive(Debug)]
pub struct ChangeLog(Vec<ActionEffect>);

impl View for ChangeLog {
    type V = Seq<ActionEffect>;

    closed spec fn view(&self) -> Seq<ActionEffect> {
        self.0@
    }
}

impl ChangeLog {
    /// An empty log.
    pub fn new() -> (r: Self)
        ensures
            r@ == Seq::<ActionEffect>::empty(),
    {
        ChangeLog(Vec::new())
    }

    pub fn read(&self) -> (r: &[ActionEffect])
        ensures
            r@ == self@,
    {
        self.0.as_slice()
    }

    /// Adds `effect` at the end of the log.
    pub fn write(&mut self, effect: ActionEffect)
        ensures
            final(self)@ == old(self)@.push(effect),
    {
        self.0.push(effect);
    }

    /// Moves all effects of `second_log` to the end of this log.
    pub fn append(&mut self, second_log: &mut ChangeLog)
        ensures
            final(self)@ == old(self)@ + old(second_log)@,
            final(second_log)@ == Seq::<ActionEffect>::empty(),
    {
        self.0.append(&mut second_log.0);
    }

    /// The log holding `effects`.
    pub fn from_effects(effects: Vec<ActionEffect>) -> (r: Self)
        ensures
            r@ == effects@,
    {
        ChangeLog(effects)
    }

    /// Hands the effects out, in order.
    pub fn inner(self) -> (r: Vec<ActionEffect>)
        ensures
            r@ == self@,
    {
        self.0
    }
}

/// A request in the process of gathering its input.
#[derive(Debug)]
pub enum ActionProcessCache {
    TileAction(TileActionProcessCache),
    Ex1,
}

impl ActionProcessCache {
    /// What the action being prepared does, for the player to read.
    pub fn forensic_description(&self) -> (r: Vec<TextSnippet>)
        requires
            self is TileAction,
        ensures
            views_of(r@) == self->TileAction_0.action.action_functionality.description(),
    {
        match self {
            ActionProcessCache::TileAction(tile_action_process_cache) => {
                tile_action_process_cache.forensic_describe()
            },
            ActionProcessCache::Ex1 => {
                assert(false);
                Vec::new()
            },
        }
    }
}

/// A request of a player, as sent over the network.
#[derive(Debug)]
pub struct BackendRequest {
    pub acting_player: PlayerId,
    pub request: RequestType,
}

#[derive(Debug)]
pub enum RequestType {
    UseCard { inventory_index: InventoryIndex, input: InputData },
    PurchaseCard { market_tile: TileId, slot_in_market: SlotInMarket },
    EndTurn,
    UseOrder { tile: TileId, input: InputData, index_of_order: u8 },
}

/// The additional input an action needs.
#[derive(Debug)]
pub enum InputData {
    SelectedTiles(Vec<SelectedTile>),
    Ex1,
}

#[derive(Debug)]
pub enum RotationTileStates {
    ElligibleTiles(Vec<TileId>),
    SelectedTile(TileId),
}

#[derive(Debug, Clone, Copy, PartialEq, Eq, Structural)]
pub enum PurchaseCardError {
    /// The tile is not a market tile.
    TileIsNotMarket(TileId),
    /// The player does not have a piece occupying the tile.
    PlayerDoesNotOccupyTile(TileId),
    /// The player cannot afford this card.
    NotEnoughCoins,
    /// No card available at this index at the market tile.
    IndexOutOfBounds,
}

#[derive(Debug, Clone, Copy, PartialEq, Eq, Structural)]
pub enum ExecuteOrderError {
    /// The piece has no orders remaining for this round.
    PieceHasNoRemainingOrders,
    /// The acting player is out of orders for this round.
    PlayerHasNoRemainingOrders,
    /// The piece does not belong to the acting player.
    PieceNotOwnedByPlayer,
    /// There is no order on the piece at this index, either because the slot
    /// is empty or because the index is beyond the slots.
    PieceHasNoOrderAtIndex(u8),
}

/// Why a request was refused.
#[derive(Debug, Clone, Copy, PartialEq, Eq, Structural)]
pub enum RequestError {
    /// It is not this player's turn.
    NotPlayersTurn(PlayerId),
    /// This player is dead and cannot make requests.
    PlayerIsDead(PlayerId),
    /// The request's input data did not match the input the action expects.
    UnexpectedInputType,
    /// No piece stands on this tile.
    NoPieceOnTile(TileId),
    Inventory(InventoryError),
    InvalidCardId(crate::cards::InvaildIDErr),
    InvalidMarketId(crate::markets::InvaildIDErr),
    InvalidOrderId(crate::orders::InvaildIDErr),
    PurchaseCard(PurchaseCardError),
    ExecuteOrder(ExecuteOrderError),
    CardConversion(CardFunctionConversionError),
    OrderConversion(OrderFunctionConversionError),
    InvalidSelection(InvalidSelection),
    SelectedTooFewTiles(SelectedTooFewTiles),
}

/// The selection state of a tile action: the states of all tiles and the
/// tiles selected so far.
pub type SelectionProgress = (Seq<State>, Seq<SelectedTile>);

/// Selecting `inputs` one by one, starting from `progress`: either the
/// progress once all are selected, or the first tile that was not
/// elligible when its turn came.
pub open spec fn selection_outcome(
    action: TileAction,
    progress: SelectionProgress,
    inputs: Seq<SelectedTile>,
    world: WorldView,
) -> Result<SelectionProgress, TileId>
    decreases inputs.len(),
{
    if inputs.len() == 0 {
        Ok(progress)
    } else {
        let hopeful = inputs[0];
        if progress.0[hopeful.id.0 as int] != State::Elligible {
            Err(hopeful.id)
        } else {
            selection_outcome(
                action,
                (
                    states_after_selection(
                        action,
                        progress.0,
                        progress.1.len() as int,
                        hopeful,
                        world,
                    ),
                    progress.1.push(hopeful),
                ),
                inputs.drop_first(),
                world,
            )
        }
    }
}

/// Selecting `inputs` one by one, starting from `progress`, reaches a tile
/// that is not on the board before any tile that is not elligible.
pub open spec fn selection_leaves_board(
    action: TileAction,
    progress: SelectionProgress,
    inputs: Seq<SelectedTile>,
    world: WorldView,
) -> bool
    decreases inputs.len(),
{
    if inputs.len() == 0 {
        false
    } else {
        let hopeful = inputs[0];
        if hopeful.id.0 >= world.tiles.len() {
            true
        } else if progress.0[hopeful.id.0 as int] != State::Elligible {
            false
        } else {
            selection_leaves_board(
                action,
                (
                    states_after_selection(
                        action,
                        progress.0,
                        progress.1.len() as int,
                        hopeful,
                        world,
                    ),
                    progress.1.push(hopeful),
                ),
                inputs.drop_first(),
                world,
            )
        }
    }
}

/// The selection process of a tile action when it starts: nothing
/// selected, and the tiles marked by the action.
pub open spec fn fresh_progress(action: TileAction, world: WorldView) -> SelectionProgress {
    (
        action.action_functionality.eligibility(
            Seq::new(world.tiles.len() as nat, |i: int| State::Neither),
            world,
        ),
        Seq::empty(),
    )
}

/// Selecting `inputs` for `action` and then executing it: the world and
/// log after execution, or why the action was refused.
pub open spec fn tile_action_outcome(
    action: TileAction,
    inputs: Seq<SelectedTile>,
    world: WorldView,
) -> Result<(WorldView, Seq<ActionEffect>), RequestError> {
    match selection_outcome(action, fresh_progress(action, world), inputs, world) {
        Err(tile) => Err(RequestError::InvalidSelection(InvalidSelection(tile))),
        Ok(progress) => if progress.1.len() < action.tile_range_for_execution.start {
            Err(RequestError::SelectedTooFewTiles(SelectedTooFewTiles))
        } else {
            Ok(action.action_functionality.execution(world, progress.1))
        },
    }
}

/// Selecting `inputs` for `action` and executing it would fail partway:
/// a tile off the board is reached, or a spawning action names an
/// archetype that the game does not have.
pub open spec fn tile_action_breaks(
    action: TileAction,
    inputs: Seq<SelectedTile>,
    world: WorldView,
) -> bool {
    ||| selection_leaves_board(action, fresh_progress(action, world), inputs, world)
    ||| {
        &&& selection_outcome(action, fresh_progress(action, world), inputs, world) matches Ok(
            progress,
        )
        &&& progress.1.len() >= action.tile_range_for_execution.start
        &&& !action.action_functionality.can_execute(progress.1, world)
    }
}

/// Selects each of `inputs` in turn, stopping at the first that is not
/// elligible.
fn select_tiles(
    cache: &mut TileActionProcessCache,
    inputs: &Vec<SelectedTile>,
    world: &GameWorld,
) -> (r: Result<(), InvalidSelection>)
    requires
        old(cache).wf(world@),
        !selection_leaves_board(
            old(cache).action,
            (old(cache).selections@.states, old(cache).selections@.selections),
            inputs@,
            world@,
        ),
    ensures
        final(cache).action == old(cache).action,
        final(cache).wf(world@),
        match selection_outcome(
            old(cache).action,
            (old(cache).selections@.states, old(cache).selections@.selections),
            inputs@,
            world@,
        ) {
            Ok(progress) => r is Ok && final(cache).selections@.states == progress.0
                && final(cache).selections@.selections == progress.1,
            Err(tile) => r == Err::<(), InvalidSelection>(InvalidSelection(tile)),
        },
{
    let ghost start = (cache.selections@.states, cache.selections@.selections);
    proof {
        assert(inputs@.skip(0) =~= inputs@);
    }
    let mut k: usize = 0;
    while k < inputs.len()
        invariant
            0 <= k <= inputs@.len(),
            cache.wf(world@),
            cache.action == old(cache).action,
            start == (old(cache).selections@.states, old(cache).selections@.selections),
            !selection_leaves_board(
                cache.action,
                (cache.selections@.states, cache.selections@.selections),
                inputs@.skip(k as int),
                world@,
            ),
            selection_outcome(
                cache.action,
                (cache.selections@.states, cache.selections@.selections),
                inputs@.skip(k as int),
                world@,
            ) == selection_outcome(cache.action, start, inputs@, world@),
        decreases inputs@.len() - k,
    {
        let ghost before = (cache.selections@.states, cache.selections@.selections);
        let hopeful = inputs[k];
        proof {
            assert(inputs@.skip(k as int)[0] == hopeful);
            assert(inputs@.skip(k as int).drop_first() =~= inputs@.skip(k as int + 1));
        }
        let ghost action = cache.action;
        let ghost rest = inputs@.skip(k as int);
        match cache.try_select_tile_and_update_elligibility(hopeful, world) {
            Ok(()) => {},
            Err(e) => {
                assert(before.0[hopeful.id.0 as int] != State::Elligible);
                assert(selection_outcome(action, before, rest, world@) == Err::<
                    SelectionProgress,
                    TileId,
                >(hopeful.id));
                assert(start == (old(cache).selections@.states, old(cache).selections@.selections));
                assert(selection_outcome(old(cache).action, start, inputs@, world@) == Err::<
                    SelectionProgress,
                    TileId,
                >(hopeful.id));
                assert(e == InvalidSelection(hopeful.id));
                return Err(e);
            },
        }
        k = k + 1;
    }
    proof {
        assert(inputs@.skip(k as int) =~= Seq::<SelectedTile>::empty());
    }
    Ok(())
}

/// Selects `inputs` for the action of `cache`, then executes it.
fn run_tile_action(
    mut cache: TileActionProcessCache,
    inputs: &Vec<SelectedTile>,
    world: &mut GameWorld,
) -> (r: Result<ChangeLog, RequestError>)
    requires
        cache.wf(old(world)@),
        cache.selections@.selections == Seq::<SelectedTile>::empty(),
        cache.selections@.states == fresh_progress(cache.action, old(world)@).0,
        !tile_action_breaks(cache.action, inputs@, old(world)@),
    ensures
        match tile_action_outcome(cache.action, inputs@, old(world)@) {
            Ok((w, log)) => r matches Ok(l) && l@ == log && final(world)@ == w,
            Err(e) => r == Err::<ChangeLog, RequestError>(e) && final(world)@ == old(world)@,
        },
        final(world).wf(),
{
    proof {
        assert((cache.selections@.states, cache.selections@.selections) == fresh_progress(
            cache.action,
            world@,
        ));
    }
    match select_tiles(&mut cache, inputs, world) {
        Ok(()) => {},
        Err(e) => {
            return Err(RequestError::InvalidSelection(e));
        },
    }
    proof {
        crate::tile_based_actions::selection_mechanics::lemma_consistent_on_board(
            cache.selections@,
        );
    }
    match cache.try_execute(world) {
        Ok(log) => Ok(log),
        Err(e) => Err(RequestError::SelectedTooFewTiles(e)),
    }
}

/// `world` with the card at `index` removed from `player`'s hand.
pub open spec fn without_card(world: WorldView, player: PlayerId, index: InventoryIndex) -> WorldView {
    let p = world.players[player.0 as int];
    WorldView {
        players: world.players.update(
            player.0 as int,
            PlayerView { hand: p.hand.remove(index.0 as int), ..p },
        ),
        ..world
    }
}

/// The tile action of the card in slot `index` of `player`'s hand, if
/// there is such a card.
pub open spec fn card_action(world: WorldView, player: PlayerId, index: InventoryIndex) -> Result<
    TileAction,
    RequestError,
> {
    let hand = world.players[player.0 as int].hand;
    if index.0 >= hand.len() {
        Err(RequestError::Inventory(InventoryError::InvalidIndex(index)))
    } else if hand[index.0 as int].0 >= world.cards.len() {
        Err(RequestError::InvalidCardId(crate::cards::InvaildIDErr(hand[index.0 as int])))
    } else {
        let function = world.cards[hand[index.0 as int].0 as int].functionality;
        Ok(
            TileAction {
                action_functionality: card_tile_action(function, world.active_player),
                tile_range_for_execution: card_selection_bounds(function),
            },
        )
    }
}

/// The outcome of `player` using the card in slot `index` of their hand,
/// with the tiles of `input`: the card's action is executed, then the card
/// leaves the hand.
pub open spec fn use_card_outcome(
    world: WorldView,
    player: PlayerId,
    index: InventoryIndex,
    input: InputData,
) -> Result<(WorldView, Seq<ActionEffect>), RequestError> {
    match card_action(world, player, index) {
        Err(e) => Err(e),
        Ok(action) => match input {
            InputData::Ex1 => Err(RequestError::UnexpectedInputType),
            InputData::SelectedTiles(tiles) => match tile_action_outcome(action, tiles@, world) {
                Err(e) => Err(e),
                Ok((w, log)) => Ok(
                    (
                        without_card(w, player, index),
                        log.push(ActionEffect::RemovedCardFromInventory { player, index }),
                    ),
                ),
            },
        },
    }
}

/// Using the card would fail partway.
pub open spec fn use_card_breaks(
    world: WorldView,
    player: PlayerId,
    index: InventoryIndex,
    input: InputData,
) -> bool {
    &&& card_action(world, player, index) matches Ok(action)
    &&& input matches InputData::SelectedTiles(tiles)
    &&& tile_action_breaks(action, tiles@, world)
}

/// Uses the card in slot `inventory_index` of `player`'s hand on the tiles
/// of `input`.
fn use_card(
    world: &mut GameWorld,
    player: PlayerId,
    inventory_index: InventoryIndex,
    input: InputData,
) -> (r: Result<ChangeLog, RequestError>)
    requires
        old(world).wf(),
        player == old(world)@.active_player,
        !use_card_breaks(old(world)@, player, inventory_index, input),
    ensures
        match use_card_outcome(old(world)@, player, inventory_index, input) {
            Ok((w, log)) => r matches Ok(l) && l@ == log && final(world)@ == w,
            Err(e) => r == Err::<ChangeLog, RequestError>(e) && final(world)@ == old(world)@,
        },
        final(world).wf(),
{
    let p = player.0 as usize;
    proof {
        assert(world@.players[p as int] == world.players@[p as int]@);
    }
    let card = match world.players[p].inventory.get_card(inventory_index) {
        Ok(card) => card,
        Err(e) => {
            return Err(RequestError::Inventory(e));
        },
    };
    let action_cache = match world.cards.get_card(card) {
        Ok(logical_card) => logical_card.functionality.action_cache(world),
        Err(e) => {
            return Err(RequestError::InvalidCardId(e));
        },
    };
    let cache = match action_cache {
        Ok(ActionProcessCache::TileAction(cache)) => cache,
        Ok(ActionProcessCache::Ex1) => {
            return Err(RequestError::UnexpectedInputType);
        },
        Err(e) => {
            return Err(RequestError::CardConversion(e));
        },
    };
    let tiles = match input {
        InputData::SelectedTiles(tiles) => tiles,
        InputData::Ex1 => {
            return Err(RequestError::UnexpectedInputType);
        },
    };
    let ghost before = world@;
    let mut log = run_tile_action(cache, &tiles, world)?;
    let ghost executed = world@;
    proof {
        assert(world@.players[p as int] == world.players@[p as int]@);
        assert(executed.players[p as int].hand == before.players[p as int].hand);
    }
    world.players[p].inventory.remove_card(inventory_index);
    log.write(ActionEffect::RemovedCardFromInventory { player, index: inventory_index });
    proof {
        assert(world@.players =~= without_card(executed, player, inventory_index).players);
        assert(world@ =~= without_card(executed, player, inventory_index));
    }
    Ok(log)
}

/// A piece of `player` stands on `tile`.
pub open spec fn player_occupies(world: WorldView, player: PlayerId, tile: TileId) -> bool {
    piece_on_tile(world.pieces, tile) matches Some(k) && world.pieces[k].owner == Some(player)
}

/// The card and price for sale in `slot` of the market on `tile`, if `tile`
/// holds a market that the game has.
pub open spec fn market_offer(world: WorldView, tile: TileId, slot: SlotInMarket) -> Result<
    (CardId, crate::markets::CardPrice),
    RequestError,
> {
    match world.tiles[tile.0 as int].market {
        None => Err(RequestError::PurchaseCard(PurchaseCardError::TileIsNotMarket(tile))),
        Some(MarketTile(market)) => if market.0 >= world.markets.len() {
            Err(RequestError::InvalidMarketId(crate::markets::InvaildIDErr(market)))
        } else {
            Ok(world.markets[market.0 as int].0[slot_index(slot)])
        },
    }
}

/// The outcome of `player` buying the card in `slot` of the market on
/// `tile`: they must have a piece on the tile, afford the price, and have
/// room in their hand; the card joins the hand and the price is paid.
pub open spec fn purchase_outcome(
    world: WorldView,
    player: PlayerId,
    tile: TileId,
    slot: SlotInMarket,
) -> Result<(WorldView, Seq<ActionEffect>), RequestError> {
    if !player_occupies(world, player, tile) {
        Err(RequestError::PurchaseCard(PurchaseCardError::PlayerDoesNotOccupyTile(tile)))
    } else {
        match market_offer(world, tile, slot) {
            Err(e) => Err(e),
            Ok((card, price)) => {
                let p = world.players[player.0 as int];
                if p.coins < price.0 {
                    Err(RequestError::PurchaseCard(PurchaseCardError::NotEnoughCoins))
                } else if !((p.hand.len() as u8) < p.max_size) {
                    Err(RequestError::Inventory(InventoryError::InventoryIsFull))
                } else {
                    Ok(
                        (
                            WorldView {
                                players: world.players.update(
                                    player.0 as int,
                                    PlayerView {
                                        hand: p.hand.push(card),
                                        coins: (p.coins - price.0) as u32,
                                        ..p
                                    },
                                ),
                                ..world
                            },
                            seq![
                                ActionEffect::AddedCardToInventory { player, card },
                                ActionEffect::AlteredCoins {
                                    player,
                                    delta_coins: -((price.0 as i32) as int) as i32,
                                    from_tile: None,
                                },
                            ],
                        ),
                    )
                }
            },
        }
    }
}

/// Buying would fail partway: the price paid is logged as its negation as
/// an `i32`, which does not exist for a price of 2^31.
pub open spec fn purchase_breaks(
    world: WorldView,
    player: PlayerId,
    tile: TileId,
    slot: SlotInMarket,
) -> bool {
    &&& purchase_outcome(world, player, tile, slot) is Ok
    &&& market_offer(world, tile, slot) matches Ok((card, price)) && price.0 == 0x8000_0000
}

/// Buys the card in `slot_in_market` of the market on `market_tile` for
/// `player`.
fn purchase_card(
    world: &mut GameWorld,
    player: PlayerId,
    market_tile: TileId,
    slot_in_market: SlotInMarket,
) -> (r: Result<ChangeLog, RequestError>)
    requires
        old(world).wf(),
        player == old(world)@.active_player,
        market_tile.0 < old(world)@.tiles.len(),
        !purchase_breaks(old(world)@, player, market_tile, slot_in_market),
    ensures
        match purchase_outcome(old(world)@, player, market_tile, slot_in_market) {
            Ok((w, log)) => r matches Ok(l) && l@ == log && final(world)@ == w,
            Err(e) => r == Err::<ChangeLog, RequestError>(e) && final(world)@ == old(world)@,
        },
        final(world).wf(),
{
    let p = player.0 as usize;
    proof {
        assert(world@.players[p as int] == world.players@[p as int]@);
    }
    let occupies = match world.find_piece_on_tile(market_tile) {
        Some(k) => owned_by(world.pieces[k].owner, player),
        None => false,
    };
    if !occupies {
        return Err(
            RequestError::PurchaseCard(PurchaseCardError::PlayerDoesNotOccupyTile(market_tile)),
        );
    }
    let market = match world.tiles[market_tile.0 as usize].market {
        Some(MarketTile(market)) => market,
        None => {
            return Err(RequestError::PurchaseCard(PurchaseCardError::TileIsNotMarket(market_tile)));
        },
    };
    let (card, price) = match world.markets.get_market(market) {
        Ok(logical_market) => *logical_market.get_card_and_price(slot_in_market),
        Err(e) => {
            return Err(RequestError::InvalidMarketId(e));
        },
    };
    if world.players[p].coins.0 >= price.0 {
        let ghost before = world@;
        match world.players[p].inventory.try_add_card(card) {
            Ok(()) => {},
            Err(e) => {
                proof {
                    assert(world@.players =~= before.players) by {
                        assert(world@.players[p as int] == world.players@[p as int]@);
                    }
                    assert(world@ =~= before);
                }
                return Err(RequestError::Inventory(e));
            },
        }
        world.players[p].coins.0 = world.players[p].coins.0 - price.0;
        proof {
            assert(purchase_outcome(before, player, market_tile, slot_in_market) is Ok);
            assert(price.0 != 0x8000_0000);
            let price_value = price.0;
            assert(price_value != 0x8000_0000u32 ==> (price_value as i32) != i32::MIN)
                by (bit_vector);
        }
        let mut log = ChangeLog::new();
        log.write(ActionEffect::AddedCardToInventory { player, card });
        log.write(
            ActionEffect::AlteredCoins { player, delta_coins: -(price.0 as i32), from_tile: None },
        );
        proof {
            let expected = purchase_outcome(before, player, market_tile, slot_in_market);
            assert(world@.players =~= expected->Ok_0.0.players);
            assert(world@ =~= expected->Ok_0.0);
            assert(log@ =~= expected->Ok_0.1);
        }
        Ok(log)
    } else {
        Err(RequestError::PurchaseCard(PurchaseCardError::NotEnoughCoins))
    }
}

/// The first player, `offset` or more places after `exiting` in turn order
/// (wrapping around, and never `exiting` itself), who is not dead.
pub open spec fn next_alive_player(world: WorldView, exiting: int, offset: int) -> Option<int>
    decreases world.players.len() - offset,
{
    if offset < 1 || offset >= world.players.len() {
        None
    } else {
        let candidate = (exiting + offset) % (world.players.len() as int);
        if life_state(world, candidate) != LifeState::Dead {
            Some(candidate)
        } else {
            next_alive_player(world, exiting, offset + 1)
        }
    }
}

/// The world and log once the turn has passed on from the active player to
/// the next player who is not dead, whose turn then starts. With no such
/// player the turn stays with the active player.
pub open spec fn next_turn(world: WorldView, log: Seq<ActionEffect>) -> (
    WorldView,
    Seq<ActionEffect>,
) {
    match next_alive_player(world, world.active_player.0 as int, 1) {
        None => (world, log),
        Some(candidate) => {
            let id = PlayerId(candidate as u8);
            (
                WorldView { active_player: id, ..start_turn(world, id) },
                log.push(ActionEffect::BeganTurn(id)),
            )
        },
    }
}

/// Starting the next player's turn would give them more orders than a `u8`
/// holds.
pub open spec fn next_turn_breaks(world: WorldView) -> bool {
    next_alive_player(world, world.active_player.0 as int, 1) matches Some(candidate)
        && orders_at_turn_start(world, PlayerId(candidate as u8)) > u8::MAX
}

/// Starting a turn changes no player's life.
proof fn lemma_start_turn_keeps_lives(world: WorldView, player: PlayerId, i: int)
    requires
        (player.0 as int) < world.players.len(),
        0 <= i < world.players.len(),
    ensures
        life_state(start_turn(world, player), i) == life_state(world, i),
{
    let after = start_turn(world, player);
    assert(after.pieces == world.pieces);
    assert(after.players[i].state == world.players[i].state);
}

proof fn lemma_next_alive_player_bounds(world: WorldView, exiting: int, offset: int)
    requires
        0 <= exiting,
    ensures
        next_alive_player(world, exiting, offset) matches Some(c) ==> 0 <= c < world.players.len()
            && c != exiting % (world.players.len() as int) && life_state(world, c) != LifeState::Dead,
    decreases world.players.len() - offset,
{
    if offset >= 1 && offset < world.players.len() {
        let n = world.players.len() as int;
        let candidate = (exiting + offset) % n;
        if life_state(world, candidate) == LifeState::Dead {
            lemma_next_alive_player_bounds(world, exiting, offset + 1);
        } else {
            assert(candidate != exiting % n) by (nonlinear_arith)
                requires
                    candidate == (exiting + offset) % n,
                    1 <= offset < n,
                    0 <= exiting,
            {
                vstd::arithmetic::div_mod::lemma_mod_add_multiples_vanish(exiting, n);
                if candidate == exiting % n {
                    vstd::arithmetic::div_mod::lemma_fundamental_div_mod(exiting + offset, n);
                    vstd::arithmetic::div_mod::lemma_fundamental_div_mod(exiting, n);
                }
            }
        }
    }
}

/// With no player found from `offset` on, every player from `offset`
/// places after `exiting` on is dead.
proof fn lemma_no_next_alive_player(world: WorldView, exiting: int, offset: int, off: int)
    requires
        0 <= exiting,
        1 <= offset <= off < world.players.len(),
        next_alive_player(world, exiting, offset) is None,
    ensures
        life_state(world, (exiting + off) % (world.players.len() as int)) == LifeState::Dead,
    decreases off - offset,
{
    if offset < off {
        lemma_no_next_alive_player(world, exiting, offset + 1, off);
    }
}

/// Ending the turn hands it to a player who is not dead whenever another
/// such player exists; only when none does does the turn stay with the
/// player who ended it.
pub proof fn lemma_turn_passes_to_living_player(world: WorldView)
    requires
        world.wf(),
    ensures
        ({
            let ended = end_turn(world, world.active_player);
            let after = end_turn_outcome(world).0;
            &&& (exists|p: int|
                0 <= p < world.players.len() && p != world.active_player.0 && life_state(ended, p)
                    != LifeState::Dead) ==> after.active_player != world.active_player
                && life_state(after, after.active_player.0 as int) != LifeState::Dead
            &&& (forall|p: int|
                0 <= p < world.players.len() && p != world.active_player.0 ==> life_state(ended, p)
                    == LifeState::Dead) ==> after.active_player == world.active_player
        }),
{
    let exiting = world.active_player;
    let ended = end_turn(world, exiting);
    let e = exiting.0 as int;
    let n = world.players.len() as int;
    lemma_next_alive_player_bounds(ended, e, 1);
    match next_alive_player(ended, e, 1) {
        Some(c) => {
            assert(e % n == e) by (nonlinear_arith)
                requires
                    0 <= e < n,
            ;
            lemma_start_turn_keeps_lives(ended, PlayerId(c as u8), c);
            assert(PlayerId(c as u8).0 == c);
            let started = start_turn(ended, PlayerId(c as u8));
            let after = end_turn_outcome(world).0;
            assert(after.players == started.players && after.pieces == started.pieces);
            assert(life_state(after, c) == life_state(started, c));
        },
        None => {
            assert forall|p: int|
                0 <= p < n && p != e implies life_state(ended, p) == LifeState::Dead by {
                let off = if p > e {
                    p - e
                } else {
                    p + n - e
                };
                lemma_no_next_alive_player(ended, e, 1, off);
                assert((e + off) % n == p) by (nonlinear_arith)
                    requires
                        0 <= p < n,
                        0 <= e < n,
                        off == if p > e {
                            p - e
                        } else {
                            p + n - e
                        },
                {
                    if p > e {
                        vstd::arithmetic::div_mod::lemma_small_mod(p as nat, n as nat);
                    } else {
                        vstd::arithmetic::div_mod::lemma_mod_add_multiples_vanish(p, n);
                        vstd::arithmetic::div_mod::lemma_small_mod(p as nat, n as nat);
                    }
                }
            }
        },
    }
}

/// Passes the turn on from the active player to the next player who is not
/// dead, starting their turn. If there is none, the turn stays with the
/// active player, which means that the game is over.
fn start_next_turn(world: &mut GameWorld, log: &mut ChangeLog)
    requires
        old(world).wf(),
        !next_turn_breaks(old(world)@),
    ensures
        (final(world)@, final(log)@) == next_turn(old(world)@, old(log)@),
        final(world).wf(),
{
    let exiting = world.active_player.0;
    let n = world.players.len();
    let ghost start = world@;
    let mut offset: usize = 1;
    while offset < n
        invariant
            1 <= offset,
            n == world.players@.len(),
            n <= 256,
            world.wf(),
            world@ == start,
            start == old(world)@,
            log@ == old(log)@,
            exiting == start.active_player,
            !next_turn_breaks(start),
            next_alive_player(start, exiting.0 as int, offset as int) == next_alive_player(
                start,
                exiting.0 as int,
                1,
            ),
        decreases n - offset,
    {
        let candidate = (exiting.0 as usize + offset) % n;
        let id = PlayerId(candidate as u8);
        proof {
            assert(candidate < n);
            assert(id.0 as int == candidate);
        }
        if world.compute_player_state(id) == LifeState::Dead {
            offset = offset + 1;
            continue ;
        }
        proof {
            lemma_next_alive_player_bounds(start, exiting.0 as int, 1);
            assert(next_alive_player(start, exiting.0 as int, 1) == Some(candidate as int));
        }
        proof {
            vstd::arithmetic::div_mod::lemma_small_mod(exiting.0 as nat, n as nat);
        }
        if id == exiting {
            // The game is over; the end of the request reports it.
            return ;
        }
        log.write(ActionEffect::BeganTurn(id));
        let mut start_log = match apply_start_turn_effects(world, id) {
            Ok(start_log) => start_log,
            Err(_) => ChangeLog::new(),
        };
        log.append(&mut start_log);
        proof {
            assert(log@ =~= old(log)@.push(ActionEffect::BeganTurn(id)));
            lemma_start_turn_keeps_lives(start, id, candidate as int);
        }
        if world.compute_player_state(id) != LifeState::Dead {
            world.active_player.0 = id;
            proof {
                assert(world@ =~= next_turn(start, old(log)@).0);
            }
            return ;
        } else {
            log.write(ActionEffect::PlayerDied(id));
            log.write(ActionEffect::EndedTurn(id));
        }
        offset = offset + 1;
    }
    proof {
        assert(next_alive_player(start, exiting.0 as int, offset as int) == None::<int>);
    }
}

/// The outcome of the active player ending their turn: their turn ends and
/// the next player's starts.
pub open spec fn end_turn_outcome(world: WorldView) -> (WorldView, Seq<ActionEffect>) {
    let exiting = world.active_player;
    next_turn(
        end_turn(world, exiting),
        seq![ActionEffect::EndedTurn(exiting)] + end_turn_log(world, exiting),
    )
}

/// Ending the turn would fail partway.
pub open spec fn end_turn_breaks(world: WorldView) -> bool {
    ||| !end_turn_fits(world, world.active_player)
    ||| next_turn_breaks(end_turn(world, world.active_player))
}

/// Ends the active player's turn and starts the next player's.
fn end_active_turn(world: &mut GameWorld) -> (log: ChangeLog)
    requires
        old(world).wf(),
        !end_turn_breaks(old(world)@),
    ensures
        (final(world)@, log@) == end_turn_outcome(old(world)@),
        final(world).wf(),
{
    let exiting_player = world.active_player.0;
    let mut log = ChangeLog::new();
    log.write(ActionEffect::EndedTurn(exiting_player));
    let mut end_log = match apply_end_turn_effects(world, exiting_player) {
        Ok(end_log) => end_log,
        Err(_) => ChangeLog::new(),
    };
    log.append(&mut end_log);
    start_next_turn(world, &mut log);
    log
}

/// The piece on `tile`, and the tile action of the order in slot `index`
/// of it, if `player` may give it that order: a piece of theirs stands on
/// the tile, it and the player have orders left, and the slot holds an
/// order that the game has.
pub open spec fn order_action(
    world: WorldView,
    player: PlayerId,
    tile: TileId,
    index: u8,
) -> Result<(int, OrderFunction), RequestError> {
    match piece_on_tile(world.pieces, tile) {
        None => Err(RequestError::NoPieceOnTile(tile)),
        Some(k) => {
            let piece = world.pieces[k];
            if piece.orders_receivable.currently < 1 {
                Err(RequestError::ExecuteOrder(ExecuteOrderError::PieceHasNoRemainingOrders))
            } else if world.players[player.0 as int].orders_remaining < 1 {
                Err(RequestError::ExecuteOrder(ExecuteOrderError::PlayerHasNoRemainingOrders))
            } else if piece.owner != Some(player) {
                Err(RequestError::ExecuteOrder(ExecuteOrderError::PieceNotOwnedByPlayer))
            } else if index >= 5 || piece.orders.0[index as int] is None {
                Err(RequestError::ExecuteOrder(ExecuteOrderError::PieceHasNoOrderAtIndex(index)))
            } else {
                let order = piece.orders.0[index as int]->Some_0;
                if order.0 >= world.orders.len() {
                    Err(RequestError::InvalidOrderId(crate::orders::InvaildIDErr(order)))
                } else {
                    Ok((k, world.orders[order.0 as int].functionality))
                }
            }
        },
    }
}

/// `world` once the piece at position `k` and `player` have each used an
/// order.
pub open spec fn order_used(world: WorldView, k: int, player: PlayerId) -> WorldView {
    let piece = world.pieces[k];
    let p = world.players[player.0 as int];
    WorldView {
        pieces: world.pieces.update(
            k,
            LogicalPiece {
                orders_receivable: OrdersReceivable {
                    currently: (piece.orders_receivable.currently - 1) as u8,
                    ..piece.orders_receivable
                },
                ..piece
            },
        ),
        players: world.players.update(
            player.0 as int,
            PlayerView { orders_remaining: (p.orders_remaining - 1) as u8, ..p },
        ),
        ..world
    }
}

/// The outcome of `player` giving the piece on `tile` the order in slot
/// `index`, with the tiles of `input`: the order's action is executed, and
/// the piece and the player each use up an order.
pub open spec fn use_order_outcome(
    world: WorldView,
    player: PlayerId,
    tile: TileId,
    input: InputData,
    index: u8,
) -> Result<(WorldView, Seq<ActionEffect>), RequestError> {
    match order_action(world, player, tile, index) {
        Err(e) => Err(e),
        Ok((k, function)) => match input {
            InputData::Ex1 => Err(RequestError::UnexpectedInputType),
            InputData::SelectedTiles(tiles) => {
                let action = TileAction {
                    action_functionality: order_tile_action(function, tile),
                    tile_range_for_execution: order_selection_bounds(function),
                };
                match tile_action_outcome(action, tiles@, world) {
                    Err(e) => Err(e),
                    Ok((w, log)) => Ok(
                        (
                            order_used(w, k, player),
                            seq![
                                ActionEffect::ReducedRemaingOrdersOfPlayer(player),
                                ActionEffect::ReducedRemainingOrdersOfPiece { tile_of_piece: tile },
                            ] + log,
                        ),
                    ),
                }
            },
        },
    }
}

/// Giving the order would fail partway: the order has no action yet, or its
/// action would fail partway.
pub open spec fn use_order_breaks(
    world: WorldView,
    player: PlayerId,
    tile: TileId,
    input: InputData,
    index: u8,
) -> bool {
    ||| order_action(world, player, tile, index) matches Ok((k, function)) && function is Ex1
    ||| {
        &&& order_action(world, player, tile, index) matches Ok((k, function))
        &&& input matches InputData::SelectedTiles(tiles)
        &&& tile_action_breaks(
            TileAction {
                action_functionality: order_tile_action(function, tile),
                tile_range_for_execution: order_selection_bounds(function),
            },
            tiles@,
            world,
        )
    }
}

/// Gives the piece on `tile` the order in slot `index_of_order`, with the
/// tiles of `input`.
fn use_order(
    world: &mut GameWorld,
    player: PlayerId,
    tile: TileId,
    input: InputData,
    index_of_order: u8,
) -> (r: Result<ChangeLog, RequestError>)
    requires
        old(world).wf(),
        player == old(world)@.active_player,
        tile.0 < old(world)@.tiles.len(),
        !use_order_breaks(old(world)@, player, tile, input, index_of_order),
    ensures
        match use_order_outcome(old(world)@, player, tile, input, index_of_order) {
            Ok((w, log)) => r matches Ok(l) && l@ == log && final(world)@ == w,
            Err(e) => r == Err::<ChangeLog, RequestError>(e) && final(world)@ == old(world)@,
        },
        final(world).wf(),
{
    let p = player.0 as usize;
    proof {
        assert(world@.players[p as int] == world.players@[p as int]@);
    }
    let k = match world.find_piece_on_tile(tile) {
        Some(k) => k,
        None => {
            return Err(RequestError::NoPieceOnTile(tile));
        },
    };
    if world.pieces[k].orders_receivable.currently < 1 {
        return Err(RequestError::ExecuteOrder(ExecuteOrderError::PieceHasNoRemainingOrders));
    }
    if world.players[p].orders_remaining.remaining < 1 {
        return Err(RequestError::ExecuteOrder(ExecuteOrderError::PlayerHasNoRemainingOrders));
    }
    let owner = match world.pieces[k].owner {
        Some(owner) => owner,
        None => {
            return Err(RequestError::ExecuteOrder(ExecuteOrderError::PieceNotOwnedByPlayer));
        },
    };
    if owner != player {
        return Err(RequestError::ExecuteOrder(ExecuteOrderError::PieceNotOwnedByPlayer));
    }
    let order: OrderId = if index_of_order < 5 {
        match world.pieces[k].orders.0[index_of_order as usize] {
            Some(order) => order,
            None => {
                return Err(
                    RequestError::ExecuteOrder(
                        ExecuteOrderError::PieceHasNoOrderAtIndex(index_of_order),
                    ),
                );
            },
        }
    } else {
        return Err(
            RequestError::ExecuteOrder(ExecuteOrderError::PieceHasNoOrderAtIndex(index_of_order)),
        );
    };
    let action_cache = match world.orders.get_card(order) {
        Ok(logical_order) => logical_order.functionality.action_cache(tile, world),
        Err(e) => {
            return Err(RequestError::InvalidOrderId(e));
        },
    };
    let cache = match action_cache {
        Ok(ActionProcessCache::TileAction(cache)) => cache,
        Ok(ActionProcessCache::Ex1) => {
            return Err(RequestError::UnexpectedInputType);
        },
        Err(e) => {
            return Err(RequestError::OrderConversion(e));
        },
    };
    let mut change_log = ChangeLog::new();
    change_log.write(ActionEffect::ReducedRemaingOrdersOfPlayer(player));
    change_log.write(ActionEffect::ReducedRemainingOrdersOfPiece { tile_of_piece: tile });
    let tiles = match input {
        InputData::SelectedTiles(tiles) => tiles,
        InputData::Ex1 => {
            return Err(RequestError::UnexpectedInputType);
        },
    };
    let ghost before = world@;
    let mut action_log = run_tile_action(cache, &tiles, world)?;
    let ghost executed = world@;
    change_log.append(&mut action_log);
    proof {
        assert(world@.players[p as int] == world.players@[p as int]@);
        assert(executed.pieces == before.pieces);
    }
    world.pieces[k].orders_receivable.currently = world.pieces[k].orders_receivable.currently - 1;
    world.players[p].orders_remaining.remaining = world.players[p].orders_remaining.remaining - 1;
    proof {
        assert(world@.pieces =~= order_used(executed, k as int, player).pieces);
        assert(world@.players =~= order_used(executed, k as int, player).players);
        assert(world@ =~= order_used(executed, k as int, player));
    }
    Ok(change_log)
}

/// The players (by id, in order) below `upto` who are alive.
pub open spec fn alive_players(world: WorldView, upto: int) -> Seq<int>
    decreases upto,
{
    if upto <= 0 {
        Seq::empty()
    } else if life_state(world, upto - 1) == LifeState::Alive {
        alive_players(world, upto - 1).push(upto - 1)
    } else {
        alive_players(world, upto - 1)
    }
}

/// The end of the game, if it has come: with no player alive there is no
/// winner, and with one that player wins.
pub open spec fn game_over_effects(world: WorldView) -> Seq<ActionEffect> {
    let alive = alive_players(world, world.players.len() as int);
    if alive.len() == 0 {
        seq![ActionEffect::GameOver { winner: None }]
    } else if alive.len() == 1 {
        seq![ActionEffect::GameOver { winner: Some(PlayerId(alive[0] as u8)) }]
    } else {
        Seq::empty()
    }
}

/// The outcome of the kind of request `request` made by the active player
/// `player`.
pub open spec fn request_type_outcome(world: WorldView, player: PlayerId, request: RequestType) -> Result<
    (WorldView, Seq<ActionEffect>),
    RequestError,
> {
    match request {
        RequestType::UseCard { inventory_index, input } => use_card_outcome(
            world,
            player,
            inventory_index,
            input,
        ),
        RequestType::PurchaseCard { market_tile, slot_in_market } => purchase_outcome(
            world,
            player,
            market_tile,
            slot_in_market,
        ),
        RequestType::EndTurn => Ok(end_turn_outcome(world)),
        RequestType::UseOrder { tile, input, index_of_order } => use_order_outcome(
            world,
            player,
            tile,
            input,
            index_of_order,
        ),
    }
}

/// The outcome of a request: only the active player, if alive, may make
/// requests; after the request the end of the game is reported if it has
/// come.
pub open spec fn request_outcome(world: WorldView, request: BackendRequest) -> Result<
    (WorldView, Seq<ActionEffect>),
    RequestError,
> {
    let player = request.acting_player;
    if player != world.active_player {
        Err(RequestError::NotPlayersTurn(player))
    } else if life_state(world, player.0 as int) == LifeState::Dead {
        Err(RequestError::PlayerIsDead(player))
    } else {
        match request_type_outcome(world, player, request.request) {
            Err(e) => Err(e),
            Ok((w, log)) => Ok((w, log + game_over_effects(w))),
        }
    }
}

/// Answering the request would fail partway: it names a tile off the
/// board, a purchase's price cannot be logged, ending the turn overflows
/// an order count, or a card or an order fails partway.
pub open spec fn request_breaks(world: WorldView, request: BackendRequest) -> bool {
    let player = request.acting_player;
    &&& player == world.active_player
    &&& life_state(world, player.0 as int) != LifeState::Dead
    &&& match request.request {
        RequestType::UseCard { inventory_index, input } => use_card_breaks(
            world,
            player,
            inventory_index,
            input,
        ),
        RequestType::PurchaseCard { market_tile, slot_in_market } => market_tile.0
            >= world.tiles.len() || purchase_breaks(world, player, market_tile, slot_in_market),
        RequestType::EndTurn => end_turn_breaks(world),
        RequestType::UseOrder { tile, input, index_of_order } => tile.0 >= world.tiles.len()
            || use_order_breaks(world, player, tile, input, index_of_order),
    }
}

/// Every player alive in `before` is alive in `after`.
pub open spec fn lives_kept(before: WorldView, after: WorldView) -> bool {
    &&& after.players.len() == before.players.len()
    &&& forall|i: int|
        0 <= i < before.players.len() && life_state(before, i) == LifeState::Alive ==> life_state(
            after,
            i,
        ) == LifeState::Alive
}

/// Worlds whose pieces have the same owners and win conditions, and whose
/// players have the same states, have the same living players.
proof fn lemma_same_lives(a: WorldView, b: WorldView)
    requires
        a.pieces.len() == b.pieces.len(),
        forall|k: int|
            #![trigger b.pieces[k]]
            0 <= k < a.pieces.len() ==> a.pieces[k].owner == b.pieces[k].owner
                && a.pieces[k].is_win_condition == b.pieces[k].is_win_condition,
        a.players.len() == b.players.len(),
        forall|i: int| 0 <= i < a.players.len() ==> #[trigger] a.players[i].state == b.players[i].state,
    ensures
        lives_kept(a, b),
        forall|i: int|
            0 <= i < a.players.len() ==> #[trigger] life_state(a, i) == life_state(b, i),
{
    assert forall|i: int| 0 <= i < a.players.len() implies #[trigger] life_state(a, i)
        == life_state(b, i) by {
        assert(a.players[i].state == b.players[i].state);
        if a.players[i].state == PlayerState::Alive {
            if exists|k: int|
                0 <= k < a.pieces.len() && a.pieces[k].is_win_condition && a.pieces[k].owner
                    == Some(PlayerId(i as u8)) {
                let k = choose|k: int|
                    0 <= k < a.pieces.len() && a.pieces[k].is_win_condition && a.pieces[k].owner
                        == Some(PlayerId(i as u8));
                assert(b.pieces[k].is_win_condition);
            }
            if exists|k: int|
                0 <= k < b.pieces.len() && b.pieces[k].is_win_condition && b.pieces[k].owner
                    == Some(PlayerId(i as u8)) {
                let k = choose|k: int|
                    0 <= k < b.pieces.len() && b.pieces[k].is_win_condition && b.pieces[k].owner
                        == Some(PlayerId(i as u8));
                assert(b.pieces[k].is_win_condition);
            }
        }
    }
}

proof fn lemma_lives_kept_transitive(a: WorldView, b: WorldView, c: WorldView)
    requires
        lives_kept(a, b),
        lives_kept(b, c),
    ensures
        lives_kept(a, c),
{
}

/// Executing a tile action kills nobody.
proof fn lemma_execution_keeps_lives(
    action: crate::tile_based_actions::TileActionFunctionality,
    world: WorldView,
    selections: Seq<SelectedTile>,
)
    requires
        world.wf(),
        action.can_execute(selections, world),
        !(action is PieceAttacksAdjacent),
    ensures
        lives_kept(world, action.execution(world, selections).0),
{
    let after = action.execution(world, selections).0;
    match action {
        crate::tile_based_actions::TileActionFunctionality::SpawnPieces(a) => {
            assert forall|i: int|
                0 <= i < world.players.len() && life_state(world, i)
                    == LifeState::Alive implies life_state(after, i) == LifeState::Alive by {
                if world.players[i].state == PlayerState::Alive {
                    let k = choose|k: int|
                        0 <= k < world.pieces.len() && world.pieces[k].is_win_condition
                            && world.pieces[k].owner == Some(PlayerId(i as u8));
                    assert(after.pieces[k] == world.pieces[k]);
                }
                if i == a.owner.0 && after.players[i].state == PlayerState::Alive
                    && world.players[i].state != PlayerState::Alive {
                    let k = world.pieces.len() as int;
                    assert(after.pieces[k] == spawned_piece(
                        a.archetype,
                        world.archetypes[a.archetype.0 as int],
                        a.owner,
                        selections[0].id,
                        selections[0].direction,
                    ));
                    assert(PlayerId(i as u8) == a.owner);
                }
            }
        },
        crate::tile_based_actions::TileActionFunctionality::MovePiece(a) => {
            let k = piece_on_tile(world.pieces, a.piece_on_tile)->Some_0;
            crate::world::lemma_piece_on_tile_valid(world.pieces, a.piece_on_tile);
            assert(after == a.execution(world, selections).0);
            assert forall|j: int| 0 <= j < world.pieces.len() implies #[trigger] after.pieces[j].owner
                == world.pieces[j].owner && after.pieces[j].is_win_condition
                == world.pieces[j].is_win_condition by {
                if j == k {
                    assert(after.pieces[j] == LogicalPiece {
                        occupies: selections[0].id,
                        ..world.pieces[k]
                    });
                }
            }
            lemma_same_lives(world, after);
        },
        _ => {
            lemma_same_lives(world, after);
        },
    }
}

/// Passing the turn on kills nobody.
proof fn lemma_next_turn_keeps_lives(world: WorldView, log: Seq<ActionEffect>)
    requires
        world.wf(),
    ensures
        lives_kept(world, next_turn(world, log).0),
{
    lemma_next_alive_player_bounds(world, world.active_player.0 as int, 1);
    let after = next_turn(world, log).0;
    lemma_same_lives(world, after);
}

/// Answering a request kills nobody.
pub proof fn lemma_request_type_keeps_lives(world: WorldView, player: PlayerId, request: RequestType)
    requires
        world.wf(),
        player == world.active_player,
        life_state(world, player.0 as int) != LifeState::Dead,
        !request_breaks(world, BackendRequest { acting_player: player, request }),
    ensures
        request_type_outcome(world, player, request) matches Ok((after, log)) ==> lives_kept(
            world,
            after,
        ),
{
    match request {
        RequestType::UseCard { inventory_index, input } => {
            if let Ok((after, log)) = use_card_outcome(world, player, inventory_index, input) {
                let action = card_action(world, player, inventory_index)->Ok_0;
                let tiles = input->SelectedTiles_0;
                let progress = selection_outcome(
                    action,
                    fresh_progress(action, world),
                    tiles@,
                    world,
                )->Ok_0;
                let executed = action.action_functionality.execution(world, progress.1).0;
                lemma_execution_keeps_lives(action.action_functionality, world, progress.1);
                lemma_same_lives(executed, after);
                lemma_lives_kept_transitive(world, executed, after);
            }
        },
        RequestType::PurchaseCard { market_tile, slot_in_market } => {
            if let Ok((after, log)) = purchase_outcome(world, player, market_tile, slot_in_market) {
                lemma_same_lives(world, after);
            }
        },
        RequestType::EndTurn => {
            let exiting = world.active_player;
            let ended = end_turn(world, exiting);
            lemma_same_lives(world, ended);
            lemma_next_turn_keeps_lives(
                ended,
                seq![ActionEffect::EndedTurn(exiting)] + end_turn_log(world, exiting),
            );
            lemma_lives_kept_transitive(world, ended, end_turn_outcome(world).0);
        },
        RequestType::UseOrder { tile, input, index_of_order } => {
            if let Ok((after, log)) = use_order_outcome(
                world,
                player,
                tile,
                input,
                index_of_order,
            ) {
                crate::world::lemma_piece_on_tile_valid(world.pieces, tile);
                let (k, function) = order_action(world, player, tile, index_of_order)->Ok_0;
                let action = TileAction {
                    action_functionality: order_tile_action(function, tile),
                    tile_range_for_execution: order_selection_bounds(function),
                };
                let tiles = input->SelectedTiles_0;
                let progress = selection_outcome(
                    action,
                    fresh_progress(action, world),
                    tiles@,
                    world,
                )->Ok_0;
                let executed = action.action_functionality.execution(world, progress.1).0;
                lemma_execution_keeps_lives(action.action_functionality, world, progress.1);
                lemma_same_lives(executed, after);
                lemma_lives_kept_transitive(world, executed, after);
            }
        },
    }
}

/// The life state of every player, by id.
fn player_life_states(world: &GameWorld) -> (r: Vec<LifeState>)
    requires
        world.wf(),
    ensures
        r@.len() == world@.players.len(),
        forall|i: int| 0 <= i < r@.len() ==> #[trigger] r@[i] == life_state(world@, i),
{
    let mut r: Vec<LifeState> = Vec::new();
    let mut i: usize = 0;
    while i < world.players.len()
        invariant
            0 <= i <= world@.players.len(),
            world.wf(),
            r@.len() == i,
            forall|j: int| 0 <= j < i ==> #[trigger] r@[j] == life_state(world@, j),
        decreases world@.players.len() - i,
    {
        r.push(world.compute_player_state(PlayerId(i as u8)));
        i = i + 1;
    }
    r
}

/// The ids of the players who are alive, in order.
fn surviving_players(world: &GameWorld) -> (r: Vec<u8>)
    requires
        world.wf(),
    ensures
        r@.len() == alive_players(world@, world@.players.len() as int).len(),
        forall|k: int|
            0 <= k < r@.len() ==> #[trigger] r@[k] as int == alive_players(
                world@,
                world@.players.len() as int,
            )[k],
{
    let mut r: Vec<u8> = Vec::new();
    let mut i: usize = 0;
    while i < world.players.len()
        invariant
            0 <= i <= world@.players.len(),
            world.wf(),
            r@.len() == alive_players(world@, i as int).len(),
            forall|k: int| 0 <= k < r@.len() ==> #[trigger] r@[k] as int == alive_players(world@, i as int)[k],
        decreases world@.players.len() - i,
    {
        if world.compute_player_state(PlayerId(i as u8)) == LifeState::Alive {
            r.push(i as u8);
        }
        i = i + 1;
    }
    r
}

/// Whether selecting `inputs` for the action of `cache` and then executing
/// it would fail partway.
#[verifier::loop_isolation(false)]
fn tile_action_would_break(
    mut cache: TileActionProcessCache,
    inputs: &Vec<SelectedTile>,
    world: &GameWorld,
) -> (r: bool)
    requires
        cache.wf(world@),
        cache.selections@.selections == Seq::<SelectedTile>::empty(),
        cache.selections@.states == fresh_progress(cache.action, world@).0,
        !(cache.action.action_functionality is MovePiece),
        !(cache.action.action_functionality is PieceAttacksAdjacent),
    ensures
        r == tile_action_breaks(cache.action, inputs@, world@),
{
    let ghost action = cache.action;
    proof {
        assert((cache.selections@.states, cache.selections@.selections) == fresh_progress(
            action,
            world@,
        ));
        assert(inputs@.skip(0) =~= inputs@);
    }
    let mut k: usize = 0;
    while k < inputs.len()
        invariant
            0 <= k <= inputs@.len(),
            cache.wf(world@),
            cache.action == action,
            !(action.action_functionality is MovePiece),
            !(action.action_functionality is PieceAttacksAdjacent),
            tile_action_breaks(action, inputs@, world@) == ({
                let progress = (cache.selections@.states, cache.selections@.selections);
                ||| selection_leaves_board(action, progress, inputs@.skip(k as int), world@)
                ||| {
                    &&& selection_outcome(action, progress, inputs@.skip(k as int), world@) matches Ok(
                        done,
                    )
                    &&& done.1.len() >= action.tile_range_for_execution.start
                    &&& !action.action_functionality.can_execute(done.1, world@)
                }
            }),
        decreases inputs@.len() - k,
    {
        let hopeful = inputs[k];
        proof {
            assert(inputs@.skip(k as int)[0] == hopeful);
            assert(inputs@.skip(k as int).drop_first() =~= inputs@.skip(k as int + 1));
        }
        let ghost progress = (cache.selections@.states, cache.selections@.selections);
        let ghost rest = inputs@.skip(k as int);
        if hopeful.id.0 as usize >= world.tiles.len() {
            assert(selection_leaves_board(action, progress, rest, world@));
            assert(tile_action_breaks(action, inputs@, world@));
            return true;
        }
        match cache.try_select_tile_and_update_elligibility(hopeful, world) {
            Ok(()) => {},
            Err(_) => {
                assert(progress.0[hopeful.id.0 as int] != State::Elligible);
                assert(!selection_leaves_board(action, progress, rest, world@));
                assert(selection_outcome(action, progress, rest, world@) is Err);
                assert(!tile_action_breaks(action, inputs@, world@));
                return false;
            },
        }
        k = k + 1;
    }
    proof {
        assert(inputs@.skip(k as int) =~= Seq::<SelectedTile>::empty());
        crate::tile_based_actions::selection_mechanics::lemma_consistent_on_board(
            cache.selections@,
        );
    }
    if cache.amount_currently_selected() < cache.action.tile_range_for_execution.start {
        return false;
    }
    let executable = match &cache.action.action_functionality {
        crate::tile_based_actions::TileActionFunctionality::SpawnPieces(a) => (a.archetype.0 as usize)
            < world.archetypes.0.len() && (a.owner.0 as usize) < world.players.len(),
        _ => true,
    };
    !executable
}

/// Whether `player` using the card in slot `index` of their hand on the
/// tiles of `input` would fail partway.
fn use_card_would_break(
    world: &GameWorld,
    player: PlayerId,
    index: InventoryIndex,
    input: &InputData,
) -> (r: bool)
    requires
        world.wf(),
        player == world@.active_player,
    ensures
        r == use_card_breaks(world@, player, index, *input),
{
    let p = player.0 as usize;
    proof {
        assert(world@.players[p as int] == world.players@[p as int]@);
    }
    let card = match world.players[p].inventory.get_card(index) {
        Ok(card) => card,
        Err(_) => {
            return false;
        },
    };
    let logical_card = match world.cards.get_card(card) {
        Ok(logical_card) => logical_card,
        Err(_) => {
            return false;
        },
    };
    let tiles = match input {
        InputData::SelectedTiles(tiles) => tiles,
        InputData::Ex1 => {
            return false;
        },
    };
    let cache = match logical_card.functionality.action_cache(world) {
        Ok(ActionProcessCache::TileAction(cache)) => cache,
        _ => {
            assert(false);
            return false;
        },
    };
    proof {
        assert(cache.action == card_action(world@, player, index)->Ok_0);
    }
    tile_action_would_break(cache, tiles, world)
}

/// Whether `player` buying the card in `slot` of the market on `tile`
/// would fail partway.
fn purchase_would_break(world: &GameWorld, player: PlayerId, tile: TileId, slot: SlotInMarket) -> (r:
    bool)
    requires
        world.wf(),
        player == world@.active_player,
        tile.0 < world@.tiles.len(),
    ensures
        r == purchase_breaks(world@, player, tile, slot),
{
    let p = player.0 as usize;
    proof {
        assert(world@.players[p as int] == world.players@[p as int]@);
    }
    let occupied = match world.find_piece_on_tile(tile) {
        Some(k) => owned_by(world.pieces[k].owner, player),
        None => false,
    };
    if !occupied {
        return false;
    }
    let market = match world.tiles[tile.0 as usize].market {
        Some(MarketTile(market)) => market,
        None => {
            return false;
        },
    };
    let price = match world.markets.get_market(market) {
        Ok(logical_market) => logical_market.get_card_and_price(slot).1.0,
        Err(_) => {
            return false;
        },
    };
    if world.players[p].coins.0 < price {
        return false;
    }
    let inventory = &world.players[p].inventory;
    if !((inventory.all_cards().len() as u8) < inventory.max_card_capacity()) {
        return false;
    }
    price == 0x8000_0000
}

/// Whether `player` giving the order in slot `index` of the piece on
/// `tile` on the tiles of `input` would fail partway.
fn use_order_would_break(
    world: &GameWorld,
    player: PlayerId,
    tile: TileId,
    input: &InputData,
    index: u8,
) -> (r: bool)
    requires
        world.wf(),
        player == world@.active_player,
        tile.0 < world@.tiles.len(),
    ensures
        r == use_order_breaks(world@, player, tile, *input, index),
{
    let p = player.0 as usize;
    proof {
        assert(world@.players[p as int] == world.players@[p as int]@);
    }
    let k = match world.find_piece_on_tile(tile) {
        Some(k) => k,
        None => {
            return false;
        },
    };
    if world.pieces[k].orders_receivable.currently < 1 {
        return false;
    }
    if world.players[p].orders_remaining.remaining < 1 {
        return false;
    }
    if !owned_by(world.pieces[k].owner, player) {
        return false;
    }
    if index >= 5 {
        return false;
    }
    let order = match world.pieces[k].orders.0[index as usize] {
        Some(order) => order,
        None => {
            return false;
        },
    };
    let logical_order = match world.orders.get_card(order) {
        Ok(logical_order) => logical_order,
        Err(_) => {
            return false;
        },
    };
    if let OrderFunction::Ex1 = logical_order.functionality {
        return true;
    }
    let tiles = match input {
        InputData::SelectedTiles(tiles) => tiles,
        InputData::Ex1 => {
            return false;
        },
    };
    let cache = match logical_order.functionality.action_cache(tile, world) {
        Ok(ActionProcessCache::TileAction(cache)) => cache,
        _ => {
            assert(false);
            return false;
        },
    };
    tile_action_would_break(cache, tiles, world)
}

/// Worlds whose players have the same life states find the same next
/// living player.
proof fn lemma_next_alive_player_same(a: WorldView, b: WorldView, exiting: int, offset: int)
    requires
        a.players.len() == b.players.len(),
        forall|i: int| 0 <= i < a.players.len() ==> #[trigger] life_state(a, i) == life_state(b, i),
        0 <= exiting,
    ensures
        next_alive_player(a, exiting, offset) == next_alive_player(b, exiting, offset),
    decreases a.players.len() - offset,
{
    if offset >= 1 && offset < a.players.len() {
        let n = a.players.len() as int;
        let candidate = (exiting + offset) % n;
        assert(0 <= candidate < n) by (nonlinear_arith)
            requires
                candidate == (exiting + offset) % n,
                n > 0,
        ;
        assert(life_state(a, candidate) == life_state(b, candidate));
        lemma_next_alive_player_same(a, b, exiting, offset + 1);
    }
}

/// Pieces that give the same players extra orders give them as many.
proof fn lemma_extra_orders_same(a: Seq<LogicalPiece>, b: Seq<LogicalPiece>, player: PlayerId)
    requires
        a.len() == b.len(),
        forall|k: int|
            0 <= k < a.len() ==> #[trigger] crate::players::gives_extra_order_to(a[k], player)
                == crate::players::gives_extra_order_to(b[k], player),
    ensures
        crate::players::extra_orders(a, player) == crate::players::extra_orders(b, player),
    decreases a.len(),
{
    if a.len() > 0 {
        assert forall|k: int| 0 <= k < a.drop_last().len() implies #[trigger] crate::players::gives_extra_order_to(
            a.drop_last()[k],
            player,
        ) == crate::players::gives_extra_order_to(b.drop_last()[k], player) by {
            assert(a.drop_last()[k] == a[k] && b.drop_last()[k] == b[k]);
        }
        lemma_extra_orders_same(a.drop_last(), b.drop_last(), player);
        assert(crate::players::gives_extra_order_to(a[a.len() - 1], player)
            == crate::players::gives_extra_order_to(b[b.len() - 1], player));
    }
}

/// The next player after the active one who is not dead, if any.
fn next_living_player(world: &GameWorld) -> (r: Option<PlayerId>)
    requires
        world.wf(),
    ensures
        match next_alive_player(world@, world@.active_player.0 as int, 1) {
            Some(c) => r == Some(PlayerId(c as u8)),
            None => r is None,
        },
{
    let exiting = world.active_player.0;
    let n = world.players.len();
    let mut offset: usize = 1;
    while offset < n
        invariant
            1 <= offset,
            n == world.players@.len(),
            n <= 256,
            world.wf(),
            exiting == world@.active_player,
            next_alive_player(world@, exiting.0 as int, offset as int) == next_alive_player(
                world@,
                exiting.0 as int,
                1,
            ),
        decreases n - offset,
    {
        let candidate = (exiting.0 as usize + offset) % n;
        let id = PlayerId(candidate as u8);
        proof {
            assert(candidate < n);
            assert(id.0 as int == candidate);
        }
        if world.compute_player_state(id) != LifeState::Dead {
            return Some(id);
        }
        offset = offset + 1;
    }
    None
}

/// The number of pieces that give `player` an extra order.
fn extra_order_count(world: &GameWorld, player: PlayerId) -> (r: u64)
    ensures
        r == crate::players::extra_orders(world.pieces@, player),
{
    let mut count: u64 = 0;
    let mut i: usize = 0;
    proof {
        assert(world.pieces@.take(0) =~= Seq::<LogicalPiece>::empty());
    }
    while i < world.pieces.len()
        invariant
            0 <= i <= world.pieces@.len(),
            count <= i,
            count == crate::players::extra_orders(world.pieces@.take(i as int), player),
        decreases world.pieces@.len() - i,
    {
        proof {
            let next = world.pieces@.take(i as int + 1);
            assert(next.drop_last() =~= world.pieces@.take(i as int));
            assert(next.last() == world.pieces@[i as int]);
        }
        if world.pieces[i].gives_extra_player_order && owned_by(world.pieces[i].owner, player) {
            count = count + 1;
        }
        i = i + 1;
    }
    proof {
        assert(world.pieces@.take(i as int) =~= world.pieces@);
    }
    count
}

/// Whether ending the active player's turn would fail partway.
fn end_turn_would_break(world: &GameWorld) -> (r: bool)
    requires
        world.wf(),
    ensures
        r == end_turn_breaks(world@),
{
    let exiting = world.active_player.0;
    let mut i: usize = 0;
    while i < world.pieces.len()
        invariant
            0 <= i <= world.pieces@.len(),
            exiting == world@.active_player,
            forall|j: int|
                #![trigger world.pieces@[j]]
                0 <= j < i && world.pieces@[j].owner == Some(exiting) ==> -127
                    <= crate::players::order_difference(world.pieces@[j]) <= 127,
        decreases world.pieces@.len() - i,
    {
        let piece = world.pieces[i];
        if owned_by(piece.owner, exiting) {
            let difference: i16 = (piece.orders_receivable.per_round as i8) as i16
                - (piece.orders_receivable.currently as i8) as i16;
            if difference < -127 || difference > 127 {
                proof {
                    assert(world@.pieces[i as int] == piece);
                }
                return true;
            }
        }
        i = i + 1;
    }
    let ghost ended = end_turn(world@, exiting);
    proof {
        lemma_same_lives(world@, ended);
        lemma_next_alive_player_same(world@, ended, exiting.0 as int, 1);
        lemma_next_alive_player_bounds(world@, exiting.0 as int, 1);
    }
    match next_living_player(world) {
        None => false,
        Some(candidate) => {
            let c = candidate.0 as usize;
            proof {
                vstd::arithmetic::div_mod::lemma_small_mod(
                    exiting.0 as nat,
                    world@.players.len() as nat,
                );
                assert(ended.players[c as int] == world@.players[c as int]);
                assert(world@.players[c as int] == world.players@[c as int]@);
                assert forall|k: int| 0 <= k < world@.pieces.len() implies #[trigger] crate::players::gives_extra_order_to(
                    ended.pieces[k],
                    candidate,
                ) == crate::players::gives_extra_order_to(world@.pieces[k], candidate) by {
                    assert(ended.pieces[k].owner == world@.pieces[k].owner);
                }
                lemma_extra_orders_same(ended.pieces, world@.pieces, candidate);
            }
            let extra = extra_order_count(world, candidate);
            let remaining = world.players[c].orders_remaining.remaining as u64;
            remaining + 2 > 255 || extra > 253 - remaining
        },
    }
}

/// Whether answering `request` would fail partway (see `request_breaks`),
/// which `try_consume_request` may not be asked to do.
pub fn request_would_break(world: &GameWorld, request: &BackendRequest) -> (r: bool)
    requires
        world.wf(),
    ensures
        r == request_breaks(world@, *request),
{
    let player = request.acting_player;
    if player != world.active_player.0 {
        return false;
    }
    if world.compute_player_state(player) == LifeState::Dead {
        return false;
    }
    match &request.request {
        RequestType::UseCard { inventory_index, input } => use_card_would_break(
            world,
            player,
            *inventory_index,
            input,
        ),
        RequestType::PurchaseCard { market_tile, slot_in_market } => {
            if market_tile.0 as usize >= world.tiles.len() {
                true
            } else {
                purchase_would_break(world, player, *market_tile, *slot_in_market)
            }
        },
        RequestType::EndTurn => end_turn_would_break(world),
        RequestType::UseOrder { tile, input, index_of_order } => {
            if tile.0 as usize >= world.tiles.len() {
                true
            } else {
                use_order_would_break(world, player, *tile, input, *index_of_order)
            }
        },
    }
}

/// Answers a request of a player: checks that it is theirs to make, carries
/// it out, and reports the end of the game if it has come. A refused
/// request leaves the world as it was. A request that would fail partway
/// may not be given; `request_would_break` tells them apart.
pub fn try_consume_request(request_to_process: BackendRequest, world: &mut GameWorld) -> (r: Result<
    ChangeLog,
    RequestError,
>)
    requires
        old(world).wf(),
        !request_breaks(old(world)@, request_to_process),
    ensures
        match request_outcome(old(world)@, request_to_process) {
            Ok((w, log)) => r matches Ok(l) && l@ == log && final(world)@ == w,
            Err(e) => r == Err::<ChangeLog, RequestError>(e) && final(world)@ == old(world)@,
        },
        final(world).wf(),
{
    let ghost initial = request_to_process;
    let acting_player = request_to_process.acting_player;
    if acting_player != world.active_player.0 {
        return Err(RequestError::NotPlayersTurn(acting_player));
    }
    if world.compute_player_state(acting_player) == LifeState::Dead {
        return Err(RequestError::PlayerIsDead(acting_player));
    }
    let player_states_before_action = player_life_states(world);
    let ghost before = world@;
    proof {
        lemma_request_type_keeps_lives(before, acting_player, initial.request);
    }
    let outcome = match request_to_process.request {
        RequestType::UseCard { inventory_index, input } => use_card(
            world,
            acting_player,
            inventory_index,
            input,
        ),
        RequestType::PurchaseCard { market_tile, slot_in_market } => purchase_card(
            world,
            acting_player,
            market_tile,
            slot_in_market,
        ),
        RequestType::EndTurn => Ok(end_active_turn(world)),
        RequestType::UseOrder { tile, input, index_of_order } => use_order(
            world,
            acting_player,
            tile,
            input,
            index_of_order,
        ),
    };
    let mut log = match outcome {
        Ok(log) => log,
        Err(e) => {
            return Err(e);
        },
    };
    let ghost acted = world@;
    let ghost acted_log = log@;
    let player_states_after_action = player_life_states(world);
    let mut index: usize = 0;
    while index < player_states_before_action.len()
        invariant
            0 <= index <= player_states_before_action@.len(),
            player_states_before_action@.len() == before.players.len(),
            player_states_after_action@.len() == acted.players.len(),
            lives_kept(before, acted),
            forall|i: int|
                0 <= i < player_states_before_action@.len() ==> #[trigger] player_states_before_action@[i]
                    == life_state(before, i),
            forall|i: int|
                0 <= i < player_states_after_action@.len() ==> #[trigger] player_states_after_action@[i]
                    == life_state(acted, i),
            world@ == acted,
            log@ == acted_log,
            world.wf(),
        decreases player_states_before_action@.len() - index,
    {
        let prior_state = player_states_before_action[index];
        let new_state = player_states_after_action[index];
        if !(prior_state == LifeState::Alive && new_state == LifeState::Dead) {
            index = index + 1;
            continue ;
        }
        // The player died during this request.
        log.write(ActionEffect::PlayerDied(PlayerId(index as u8)));
        if world.active_player.0.0 as usize == index {
            start_next_turn(world, &mut log);
        }
        index = index + 1;
    }
    let surviving = surviving_players(world);
    if surviving.len() == 0 {
        log.write(ActionEffect::GameOver { winner: None });
    } else if surviving.len() == 1 {
        log.write(ActionEffect::GameOver { winner: Some(PlayerId(surviving[0])) });
    }
    proof {
        assert(log@ =~= acted_log + game_over_effects(acted));
    }
    Ok(log)
}

} // verus!
