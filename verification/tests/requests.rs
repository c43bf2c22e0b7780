use core_game_logic::cards::CardId;
use core_game_logic::markets::{MarketId, SlotInMarket};
use core_game_logic::orders::OrderId;
use core_game_logic::pieces::{
    ArchetypeId, FacingHexDirection, Health, LogicalPiece, MonetaryValue, Orders, OrdersReceivable,
};
use core_game_logic::players::{InventoryError, InventoryIndex, PlayerId};
use core_game_logic::requests::{
    request_would_break, try_consume_request, ActionEffect, BackendRequest, ChangeLog,
    ExecuteOrderError, InputData,
    PurchaseCardError, RequestError, RequestType,
};
use core_game_logic::tile_based_actions::selection_mechanics::{InvalidSelection, SelectedTile};
use core_game_logic::tile_based_actions::SelectedTooFewTiles;
use core_game_logic::tile_mapping::{valid_neighbours, TileId, TileIdServer};
use core_game_logic::tiles::{MarketTile, TileType};
use core_game_logic::world::GameWorld;
use core_game_logic::CreationParameters;

fn piece_of(owner: u8, tile: u32) -> LogicalPiece {
    LogicalPiece {
        archetype: ArchetypeId(0),
        occupies: TileId(tile),
        owner: Some(PlayerId(owner)),
        health: Health { max: 5, current: 5 },
        orders_receivable: OrdersReceivable { per_round: 1, currently: 1 },
        orders: Orders([Some(OrderId(2)), Some(OrderId(0)), Some(OrderId(9)), None, None]),
        facing: FacingHexDirection::North,
        monetary_value: MonetaryValue(0),
        gives_extra_player_order: false,
        is_spawn_point: false,
        is_win_condition: false,
    }
}

/// The testing game, with market 0 on tile 5, market 7 (which does not
/// exist) on tile 8, and a piece of player 0 on tiles 5, 6 and 8.
fn market_world() -> GameWorld {
    let mut world = CreationParameters::testing_default();
    world.tiles[5].market = Some(MarketTile(MarketId(0)));
    world.tiles[7].market = Some(MarketTile(MarketId(0)));
    world.tiles[8].market = Some(MarketTile(MarketId(7)));
    world.pieces.push(piece_of(0, 5));
    world.pieces.push(piece_of(0, 6));
    world.pieces.push(piece_of(0, 8));
    world
}

fn purchase(world: &mut GameWorld, tile: u32, slot: SlotInMarket) -> Result<ChangeLog, RequestError> {
    try_consume_request(
        BackendRequest {
            acting_player: PlayerId(0),
            request: RequestType::PurchaseCard { market_tile: TileId(tile), slot_in_market: slot },
        },
        world,
    )
}

#[test]
fn buying_a_card_at_an_occupied_market() {
    let mut world = market_world();
    let log = purchase(&mut world, 5, SlotInMarket::First).unwrap().inner();
    assert_eq!(world.players[0].coins.0, 22);
    assert_eq!(world.players[0].inventory.all_cards(), &[CardId(1), CardId(3), CardId(0)]);
    assert_eq!(
        log,
        vec![
            ActionEffect::AddedCardToInventory { player: PlayerId(0), card: CardId(0) },
            ActionEffect::AlteredCoins { player: PlayerId(0), delta_coins: -3, from_tile: None },
        ]
    );
}

#[test]
fn purchases_that_are_refused() {
    let mut world = market_world();
    assert_eq!(
        purchase(&mut world, 6, SlotInMarket::First).unwrap_err(),
        RequestError::PurchaseCard(PurchaseCardError::TileIsNotMarket(TileId(6)))
    );
    assert_eq!(
        purchase(&mut world, 7, SlotInMarket::First).unwrap_err(),
        RequestError::PurchaseCard(PurchaseCardError::PlayerDoesNotOccupyTile(TileId(7)))
    );
    assert_eq!(
        purchase(&mut world, 8, SlotInMarket::First).unwrap_err(),
        RequestError::InvalidMarketId(core_game_logic::markets::InvaildIDErr(MarketId(7)))
    );
    world.players[0].coins.0 = 4;
    assert_eq!(
        purchase(&mut world, 5, SlotInMarket::Second).unwrap_err(),
        RequestError::PurchaseCard(PurchaseCardError::NotEnoughCoins)
    );
    for card in 0..3 {
        world.players[0].inventory.try_add_card(CardId(card)).unwrap();
    }
    assert_eq!(
        purchase(&mut world, 5, SlotInMarket::Third).unwrap_err(),
        RequestError::Inventory(InventoryError::InventoryIsFull)
    );
    // nothing was bought
    assert_eq!(world.players[0].coins.0, 4);
    assert_eq!(world.players[0].inventory.all_cards().len(), 5);
}

fn order(world: &mut GameWorld, tile: u32, index: u8, input: InputData) -> Result<ChangeLog, RequestError> {
    try_consume_request(
        BackendRequest {
            acting_player: PlayerId(0),
            request: RequestType::UseOrder { tile: TileId(tile), input, index_of_order: index },
        },
        world,
    )
}

fn tiles(ids: &[u32]) -> InputData {
    InputData::SelectedTiles(
        ids.iter().map(|&id| SelectedTile { id: TileId(id), direction: FacingHexDirection::North }).collect(),
    )
}

#[test]
fn an_order_converts_tiles_next_to_its_piece() {
    let mut world = market_world();
    let neighbour = valid_neighbours(TileId(5), &TileIdServer { total_tiles_on_board: 61 })[0].0;
    let remaining_before = world.players[0].orders_remaining.remaining;
    let log = order(&mut world, 5, 0, tiles(&[neighbour])).unwrap().inner();
    assert_eq!(world.tiles[neighbour as usize].tile_type, TileType::Ex1);
    assert_eq!(world.pieces[0].orders_receivable.currently, 0);
    assert_eq!(world.players[0].orders_remaining.remaining, remaining_before - 1);
    assert_eq!(
        log,
        vec![
            ActionEffect::ReducedRemaingOrdersOfPlayer(PlayerId(0)),
            ActionEffect::ReducedRemainingOrdersOfPiece { tile_of_piece: TileId(5) },
            ActionEffect::ConvertedTileType { tile: TileId(neighbour), new_type: TileType::Ex1 },
        ]
    );
}

#[test]
fn orders_that_are_refused() {
    let mut world = market_world();
    assert_eq!(order(&mut world, 9, 0, tiles(&[])).unwrap_err(), RequestError::NoPieceOnTile(TileId(9)));
    assert_eq!(
        order(&mut world, 5, 3, tiles(&[])).unwrap_err(),
        RequestError::ExecuteOrder(ExecuteOrderError::PieceHasNoOrderAtIndex(3))
    );
    assert_eq!(
        order(&mut world, 5, 7, tiles(&[])).unwrap_err(),
        RequestError::ExecuteOrder(ExecuteOrderError::PieceHasNoOrderAtIndex(7))
    );
    assert_eq!(
        order(&mut world, 5, 2, tiles(&[])).unwrap_err(),
        RequestError::InvalidOrderId(core_game_logic::orders::InvaildIDErr(OrderId(9)))
    );
    assert_eq!(order(&mut world, 5, 0, InputData::Ex1).unwrap_err(), RequestError::UnexpectedInputType);
    assert_eq!(
        order(&mut world, 5, 0, tiles(&[])).unwrap_err(),
        RequestError::SelectedTooFewTiles(SelectedTooFewTiles)
    );
    // tile 40 lies far from the piece
    assert_eq!(
        order(&mut world, 5, 0, tiles(&[40])).unwrap_err(),
        RequestError::InvalidSelection(InvalidSelection(TileId(40)))
    );
    world.pieces[1].owner = Some(PlayerId(1));
    assert_eq!(
        order(&mut world, 6, 0, tiles(&[])).unwrap_err(),
        RequestError::ExecuteOrder(ExecuteOrderError::PieceNotOwnedByPlayer)
    );
    world.pieces[0].orders_receivable.currently = 0;
    assert_eq!(
        order(&mut world, 5, 0, tiles(&[])).unwrap_err(),
        RequestError::ExecuteOrder(ExecuteOrderError::PieceHasNoRemainingOrders)
    );
    world.players[0].orders_remaining.remaining = 0;
    assert_eq!(
        order(&mut world, 8, 0, tiles(&[])).unwrap_err(),
        RequestError::ExecuteOrder(ExecuteOrderError::PlayerHasNoRemainingOrders)
    );
    // nothing changed
    assert!(world.tiles.iter().all(|t| t.tile_type == TileType::Basic));
}

#[test]
fn a_card_that_the_game_does_not_have_is_refused() {
    let mut world = CreationParameters::testing_default();
    world.players[0].inventory.try_add_card(CardId(99)).unwrap();
    let r = try_consume_request(
        BackendRequest {
            acting_player: PlayerId(0),
            request: RequestType::UseCard { inventory_index: InventoryIndex(2), input: tiles(&[1]) },
        },
        &mut world,
    );
    assert_eq!(r.unwrap_err(), RequestError::InvalidCardId(core_game_logic::cards::InvaildIDErr(CardId(99))));
    let r = try_consume_request(
        BackendRequest {
            acting_player: PlayerId(0),
            request: RequestType::UseCard { inventory_index: InventoryIndex(0), input: InputData::Ex1 },
        },
        &mut world,
    );
    assert_eq!(r.unwrap_err(), RequestError::UnexpectedInputType);
    assert_eq!(world.players[0].inventory.all_cards(), &[CardId(1), CardId(3), CardId(99)]);
}

#[test]
fn an_order_to_an_ownerless_piece_is_refused() {
    let mut world = market_world();
    world.pieces[0].owner = None;
    assert_eq!(
        order(&mut world, 5, 0, tiles(&[])).unwrap_err(),
        RequestError::ExecuteOrder(ExecuteOrderError::PieceNotOwnedByPlayer)
    );
}

#[test]
fn requests_that_would_fail_partway_are_recognised() {
    let world = market_world();
    let ask = |request: RequestType| {
        request_would_break(&world, &BackendRequest { acting_player: PlayerId(0), request })
    };
    // ordinary requests, accepted or refused, do not fail partway
    assert!(!ask(RequestType::EndTurn));
    assert!(!ask(RequestType::PurchaseCard { market_tile: TileId(5), slot_in_market: SlotInMarket::First }));
    assert!(!ask(RequestType::UseCard { inventory_index: InventoryIndex(0), input: tiles(&[5]) }));
    assert!(!ask(RequestType::UseOrder { tile: TileId(5), input: tiles(&[40]), index_of_order: 0 }));
    // a tile off the board
    assert!(ask(RequestType::PurchaseCard { market_tile: TileId(61), slot_in_market: SlotInMarket::First }));
    assert!(ask(RequestType::UseCard { inventory_index: InventoryIndex(0), input: tiles(&[70]) }));
    assert!(ask(RequestType::UseOrder { tile: TileId(61), input: tiles(&[]), index_of_order: 0 }));
    // an order that has no action yet
    assert!(ask(RequestType::UseOrder { tile: TileId(5), input: tiles(&[]), index_of_order: 1 }));
    // another player's request is refused before anything can fail
    assert!(!request_would_break(
        &world,
        &BackendRequest { acting_player: PlayerId(1), request: RequestType::EndTurn }
    ));
}

#[test]
fn an_end_of_turn_whose_order_counts_overflow_is_recognised() {
    let mut world = market_world();
    world.pieces[0].orders_receivable.per_round = 200;
    world.pieces[0].orders_receivable.currently = 100;
    assert!(request_would_break(
        &world,
        &BackendRequest { acting_player: PlayerId(0), request: RequestType::EndTurn }
    ));
    let mut world = market_world();
    world.players[1].orders_remaining.remaining = 254;
    assert!(request_would_break(
        &world,
        &BackendRequest { acting_player: PlayerId(0), request: RequestType::EndTurn }
    ));
}
