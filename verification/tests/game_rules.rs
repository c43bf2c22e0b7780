use core_game_logic::cards::{CardFunction, CardId};
use core_game_logic::inputs_interface::{
    action_blockers, ActionInputManager, Blocker, BlockerError, FrontendAction, LoadActionError,
};
use core_game_logic::markets::{MarketId, SlotInMarket};
use core_game_logic::pieces::{
    ArchetypeId, FacingHexDirection, Health, LogicalPiece, MonetaryValue, Orders, OrdersReceivable,
};
use core_game_logic::players::{PlayerId, PlayerState};
use core_game_logic::requests::{
    try_consume_request, ActionEffect, ActionProcessCache, BackendRequest, InputData, RequestError,
    RequestType,
};
use core_game_logic::tile_based_actions::change_tile_type::ConvertTileTo;
use core_game_logic::tile_based_actions::selection_mechanics::{InvalidSelection, SelectedTile, State};
use core_game_logic::tile_based_actions::spawn_pieces::SpawningRestrictions;
use core_game_logic::forensic_action_descriptions::{ForensicDescribe, SnippetContent};
use core_game_logic::tile_based_actions::{
    selection_bounds_acceptable, SelectedTooFewTiles, TileAction, TileActionFunctionality,
    TileActionFunctionalityCapabilityConstants, TileActionProcessCache,
};
use core_game_logic::tile_based_actions::damage_piece::PieceAttacksAdjacent;
use core_game_logic::tile_based_actions::move_piece::{MovePiece, MovementMethod};
use core_game_logic::tile_mapping::{HexVector2d, TileId, TileIdServer};
use core_game_logic::tiles::TileType;
use core_game_logic::world::{tower_of_player, GameWorld};
use core_game_logic::CreationParameters;

fn select(tile: u32) -> SelectedTile {
    SelectedTile { id: TileId(tile), direction: FacingHexDirection::North }
}

#[test]
fn convert_card_into_action_cache() {
    let mut world = CreationParameters::testing_default();

    let card1 = CardFunction::TileConversionToSingleType {
        selection_bounds: 1..4,
        target_type: TileType::Ex1,
    };

    let ActionProcessCache::TileAction(mut action) = card1.action_cache(&world).unwrap() else {
        panic!()
    };

    action.try_select_tile_and_update_elligibility(select(1), &world).unwrap();
    action.try_select_tile_and_update_elligibility(select(3), &world).unwrap();

    action.try_execute(&mut world).unwrap();

    assert_eq!(world.tiles[1].tile_type, TileType::Ex1);
    assert_eq!(world.tiles[2].tile_type, TileType::Basic);
    assert_eq!(world.tiles[3].tile_type, TileType::Ex1);
}

/// An action that can work with two tiles, but not three.
#[derive(Debug, Clone, Copy)]
struct FailingAction;

impl TileActionFunctionalityCapabilityConstants for FailingAction {
    fn spec_acceptable_selection_counts(&self) -> (usize, usize) {
        (2, 3)
    }

    fn acceptable_selection_counts(&self) -> std::ops::Range<usize> {
        2..3
    }
}

impl ForensicDescribe for FailingAction {}

#[test]
fn test_improper_tile_action_creation() {
    let failing_action_functionality = FailingAction;

    assert!(TileAction::new(failing_action_functionality, 1..2).is_err());
    assert!(TileAction::new(failing_action_functionality, 2..2).is_ok());
    assert!(TileAction::new(failing_action_functionality, 2..3).is_ok());
    assert!(TileAction::new(failing_action_functionality, 3..4).is_err());
    assert!(TileAction::new(failing_action_functionality, 0..usize::MAX).is_err());

    // the same bounds checked directly
    let acceptable = 2..3;
    assert!(!selection_bounds_acceptable(&acceptable, &(1..2)));
    assert!(selection_bounds_acceptable(&acceptable, &(2..2)));
    assert!(!selection_bounds_acceptable(&acceptable, &(0..usize::MAX)));
}

#[test]
fn an_action_without_a_description_of_its_own_gets_the_default() {
    let expected = "No description implemented yet.";
    for description in [
        FailingAction.forensic_description(),
        MovePiece { piece_on_tile: TileId(0), method: MovementMethod::Adjacent { depth: 1 } }
            .forensic_description(),
    ] {
        assert_eq!(description.len(), 1);
        assert!(description[0].special_color.is_none());
        assert!(matches!(&description[0].content, SnippetContent::PlainText(t) if t == expected));
    }
}

#[test]
fn the_created_world_has_the_board_and_players_asked_for() {
    let world = CreationParameters::testing_default();
    assert_eq!(world.tiles.len(), 61);
    assert!(world.tiles.iter().all(|t| t.tile_type == TileType::Basic && t.market.is_none()));
    assert_eq!(world.players.len(), 3);
    assert_eq!(world.active_player.0, PlayerId(0));
    for player in world.players.iter() {
        assert_eq!(player.inventory.all_cards(), &[CardId(1), CardId(3)]);
        assert_eq!(player.coins.0, 25);
    }
    assert!(world.pieces.is_empty());
}

#[test]
fn ending_the_turn_passes_it_to_the_next_player() {
    let mut world = CreationParameters::testing_default();
    let log = try_consume_request(
        BackendRequest { acting_player: PlayerId(0), request: RequestType::EndTurn },
        &mut world,
    )
    .unwrap()
    .inner();
    assert_eq!(world.active_player.0, PlayerId(1));
    assert_eq!(log.first(), Some(&ActionEffect::EndedTurn(PlayerId(0))));
    assert!(log.contains(&ActionEffect::BeganTurn(PlayerId(1))));
}

#[test]
fn the_turn_skips_dead_players() {
    let mut world = CreationParameters::testing_default();
    world.players[1].state = PlayerState::Dead;
    try_consume_request(
        BackendRequest { acting_player: PlayerId(0), request: RequestType::EndTurn },
        &mut world,
    )
    .unwrap();
    assert_eq!(world.active_player.0, PlayerId(2));
}

#[test]
fn the_turn_stays_when_nobody_else_lives() {
    let mut world = CreationParameters::testing_default();
    world.players[1].state = PlayerState::Dead;
    world.players[2].state = PlayerState::Dead;
    let log = try_consume_request(
        BackendRequest { acting_player: PlayerId(0), request: RequestType::EndTurn },
        &mut world,
    )
    .unwrap()
    .inner();
    assert_eq!(world.active_player.0, PlayerId(0));
    // the only player left alive has won
    assert_eq!(log.last(), Some(&ActionEffect::GameOver { winner: Some(PlayerId(0)) }));
}

#[test]
fn requests_out_of_turn_are_refused() {
    let mut world = CreationParameters::testing_default();
    let r = try_consume_request(
        BackendRequest { acting_player: PlayerId(1), request: RequestType::EndTurn },
        &mut world,
    );
    assert_eq!(r.unwrap_err(), RequestError::NotPlayersTurn(PlayerId(1)));
    assert_eq!(world.active_player.0, PlayerId(0));
}

#[test]
fn requests_of_dead_players_are_refused() {
    let mut world = CreationParameters::testing_default();
    world.players[0].state = PlayerState::Dead;
    let r = try_consume_request(
        BackendRequest { acting_player: PlayerId(0), request: RequestType::EndTurn },
        &mut world,
    );
    assert_eq!(r.unwrap_err(), RequestError::PlayerIsDead(PlayerId(0)));
}

#[test]
fn using_a_card_converts_the_tile_and_spends_the_card() {
    let mut world = CreationParameters::testing_default();
    let log = try_consume_request(
        BackendRequest {
            acting_player: PlayerId(0),
            request: RequestType::UseCard {
                inventory_index: core_game_logic::players::InventoryIndex(0),
                input: InputData::SelectedTiles(vec![select(5)]),
            },
        },
        &mut world,
    )
    .unwrap()
    .inner();
    assert_eq!(world.tiles[5].tile_type, TileType::Ex1);
    assert_eq!(world.tiles[4].tile_type, TileType::Basic);
    assert_eq!(world.players[0].inventory.all_cards(), &[CardId(3)]);
    assert!(log.contains(&ActionEffect::ConvertedTileType { tile: TileId(5), new_type: TileType::Ex1 }));
}

#[test]
fn using_a_missing_card_is_refused() {
    let mut world = CreationParameters::testing_default();
    let r = try_consume_request(
        BackendRequest {
            acting_player: PlayerId(0),
            request: RequestType::UseCard {
                inventory_index: core_game_logic::players::InventoryIndex(4),
                input: InputData::SelectedTiles(vec![select(5)]),
            },
        },
        &mut world,
    );
    assert_eq!(
        r.unwrap_err(),
        RequestError::Inventory(core_game_logic::players::InventoryError::InvalidIndex(
            core_game_logic::players::InventoryIndex(4)
        ))
    );
    assert_eq!(world.players[0].inventory.all_cards(), &[CardId(1), CardId(3)]);
}

fn conversion_cache(world: &GameWorld, bounds: std::ops::Range<usize>) -> TileActionProcessCache {
    let action = TileAction::new(
        TileActionFunctionality::ConvertTileTo(ConvertTileTo {
            target_type: TileType::Ex1,
            restrictions: None,
        }),
        bounds,
    )
    .unwrap();
    TileActionProcessCache::initialize(action, world)
}

#[test]
fn a_tile_cannot_be_selected_twice() {
    let world = CreationParameters::testing_default();
    let mut cache = conversion_cache(&world, 1..4);
    cache.try_select_tile_and_update_elligibility(select(1), &world).unwrap();
    assert_eq!(
        cache.try_select_tile_and_update_elligibility(select(1), &world),
        Err(InvalidSelection(TileId(1)))
    );
    assert_eq!(cache.amount_currently_selected(), 1);
    assert_eq!(*cache.get_tile_state(TileId(1)), State::Selected(FacingHexDirection::North));
}

#[test]
fn a_full_selection_closes_every_other_tile() {
    let world = CreationParameters::testing_default();
    // the selection closes once as many tiles are selected as the end of
    // the bounds says
    let mut cache = conversion_cache(&world, 1..2);
    cache.try_select_tile_and_update_elligibility(select(6), &world).unwrap();
    assert_eq!(*cache.get_tile_state(TileId(7)), State::Elligible);
    cache.try_select_tile_and_update_elligibility(select(7), &world).unwrap();
    for (i, state) in cache.view_selection_states().iter().enumerate() {
        if i == 6 || i == 7 {
            assert_eq!(*state, State::Selected(FacingHexDirection::North));
        } else {
            assert_eq!(*state, State::Neither);
        }
    }
    assert_eq!(
        cache.try_select_tile_and_update_elligibility(select(8), &world),
        Err(InvalidSelection(TileId(8)))
    );
}

#[test]
fn executing_with_too_few_tiles_is_refused() {
    let mut world = CreationParameters::testing_default();
    let mut cache = conversion_cache(&world, 2..3);
    cache.try_select_tile_and_update_elligibility(select(1), &world).unwrap();
    assert_eq!(cache.try_execute(&mut world).unwrap_err(), SelectedTooFewTiles);
    assert_eq!(world.tiles[1].tile_type, TileType::Basic);
}

#[test]
fn action_bounds_must_fit_the_action() {
    let convert = TileActionFunctionality::ConvertTileTo(ConvertTileTo {
        target_type: TileType::Ex1,
        restrictions: None,
    });
    assert!(TileAction::new(convert, 0..5).is_ok());
    let movement = TileActionFunctionality::MovePiece(
        MovePiece {
            piece_on_tile: TileId(0),
            method: MovementMethod::Adjacent {
                depth: 1,
            },
        },
    );
    assert!(TileAction::new(movement, 1..1).is_ok());
    assert!(TileAction::new(movement, 1..2).is_err());
    assert!(TileAction::new(movement, 0..1).is_err());
}

pub fn piece_on(tile: u32, owner: u8, health: u32, value: u32) -> LogicalPiece {
    LogicalPiece {
        archetype: ArchetypeId(0),
        occupies: TileId(tile),
        owner: Some(PlayerId(owner)),
        health: Health { max: health, current: health },
        orders_receivable: OrdersReceivable { per_round: 1, currently: 0 },
        orders: Orders([None, None, None, None, None]),
        facing: FacingHexDirection::North,
        monetary_value: MonetaryValue(value),
        gives_extra_player_order: false,
        is_spawn_point: false,
        is_win_condition: false,
    }
}

fn cache_for(world: &GameWorld, action: TileActionFunctionality, bounds: std::ops::Range<usize>) -> TileActionProcessCache {
    TileActionProcessCache::initialize(TileAction::new(action, bounds).unwrap(), world)
}

fn elligible_tiles(cache: &TileActionProcessCache) -> Vec<usize> {
    cache
        .view_selection_states()
        .iter()
        .enumerate()
        .filter(|(_, s)| **s == State::Elligible)
        .map(|(i, _)| i)
        .collect()
}

#[test]
fn tiles_within_depth_of_a_position() {
    let server = TileIdServer { total_tiles_on_board: 61 };
    let origin = HexVector2d::from_tile_index(0);
    let ids = |depth: u8| -> Vec<u32> {
        origin.adjacent_ids_with_depth(depth, &server).iter().map(|t| t.0).collect()
    };
    assert_eq!(ids(0), Vec::<u32>::new());
    assert_eq!(ids(1), (1..=6).collect::<Vec<u32>>());
    assert_eq!(ids(2), (1..=18).collect::<Vec<u32>>());
    // tile 1 lies beneath the origin: its neighbours are the origin, two
    // tiles of ring one and three of ring two
    let around_one: Vec<u32> = HexVector2d::from_tile_index(1)
        .adjacent_ids_with_depth(1, &server)
        .iter()
        .map(|t| t.0)
        .collect();
    assert_eq!(around_one.len(), 6);
    assert!(around_one.contains(&0));
}

#[test]
fn a_piece_moves_to_a_vacant_tile_next_to_it() {
    let mut world = CreationParameters::testing_default();
    world.pieces.push(piece_on(0, 0, 5, 0));
    world.pieces.push(piece_on(2, 1, 5, 0));
    let movement = TileActionFunctionality::MovePiece(MovePiece {
        piece_on_tile: TileId(0),
        method: MovementMethod::Adjacent { depth: 1 },
    });
    let mut cache = cache_for(&world, movement, 1..1);
    // tile 2 is taken by another piece
    assert_eq!(elligible_tiles(&cache), vec![1, 3, 4, 5, 6]);
    cache.try_select_tile_and_update_elligibility(select(4), &world).unwrap();
    let log = cache.try_execute(&mut world).unwrap().inner();
    assert_eq!(world.pieces[0].occupies, TileId(4));
    assert_eq!(world.pieces[1].occupies, TileId(2));
    assert_eq!(log, vec![ActionEffect::PieceMoved { from_tile: TileId(0), to_tile: TileId(4) }]);
}

#[test]
fn a_piece_moves_forward_in_the_direction_it_faces() {
    let world = {
        let mut world = CreationParameters::testing_default();
        world.pieces.push(piece_on(0, 0, 5, 0));
        world
    };
    let forward = |depth: u8| {
        let movement = TileActionFunctionality::MovePiece(MovePiece {
            piece_on_tile: TileId(0),
            method: MovementMethod::Forward { depth },
        });
        elligible_tiles(&cache_for(&world, movement, 1..1))
    };
    // north of the origin lies tile 4, and north of that tile 13
    assert_eq!(forward(0), vec![4]);
    assert_eq!(forward(1), vec![4]);
    assert_eq!(forward(2), vec![4, 13]);
    // the board has four rings, so the fifth step leaves it
    assert_eq!(forward(9).len(), 4);
}

#[test]
fn an_attack_damages_and_then_kills() {
    let mut world = CreationParameters::testing_default();
    world.pieces.push(piece_on(0, 0, 5, 0));
    world.pieces.push(piece_on(1, 1, 5, 3));
    let attack = |damage: u32| {
        TileActionFunctionality::PieceAttacksAdjacent(PieceAttacksAdjacent {
            attacker_occupies_tile: TileId(0),
            damage,
            adjacency_depth: 1,
        })
    };
    let mut cache = cache_for(&world, attack(2), 1..2);
    // only occupied tiles nearby can be attacked
    assert_eq!(elligible_tiles(&cache), vec![1]);
    cache.try_select_tile_and_update_elligibility(select(1), &world).unwrap();
    let log = cache.try_execute(&mut world).unwrap().inner();
    assert_eq!(world.pieces[1].health.current, 3);
    assert_eq!(log, vec![ActionEffect::DamagedPiece { on_tile: TileId(1), hp_removed: 2 }]);

    let mut cache = cache_for(&world, attack(10), 1..2);
    cache.try_select_tile_and_update_elligibility(select(1), &world).unwrap();
    let log = cache.try_execute(&mut world).unwrap().inner();
    // the killed piece is logged and paid for, and stays where it was
    assert_eq!(world.pieces.len(), 2);
    assert_eq!(world.pieces[1].health.current, 0);
    assert_eq!(world.players[0].coins.0, 28);
    assert_eq!(
        log,
        vec![
            ActionEffect::DamagedPiece { on_tile: TileId(1), hp_removed: 3 },
            ActionEffect::PieceKilled { on_tile: TileId(1) },
            ActionEffect::AlteredCoins { player: PlayerId(0), delta_coins: 3, from_tile: Some(TileId(1)) },
        ]
    );
}

#[test]
fn spawning_a_piece_through_a_card() {
    let mut world = CreationParameters::testing_default();
    let card = CardFunction::SpawnPiece {
        selection_bounds: 1..2,
        piece_archetype: ArchetypeId(2),
        restrictions: SpawningRestrictions::Anywhere,
    };
    let ActionProcessCache::TileAction(mut cache) = card.action_cache(&world).unwrap() else {
        panic!()
    };
    cache
        .try_select_tile_and_update_elligibility(
            SelectedTile { id: TileId(9), direction: FacingHexDirection::SouthEast },
            &world,
        )
        .unwrap();
    cache.try_execute(&mut world).unwrap();
    assert_eq!(world.pieces.len(), 1);
    assert_eq!(world.pieces[0].occupies, TileId(9));
    assert_eq!(world.pieces[0].owner, Some(PlayerId(0)));
    assert_eq!(world.pieces[0].facing, FacingHexDirection::SouthEast);
    assert_eq!(world.pieces[0].health.current, 12);
}

#[test]
fn actions_aimed_at_a_tile_need_an_active_tile() {
    let world = CreationParameters::testing_default();
    let mut manager = ActionInputManager::default();
    assert!(manager.loaded_action().is_none());
    assert!(manager.loaded_request().is_none());

    let refused = manager.try_load_action(Some(FrontendAction::PurchaseCard { slot: SlotInMarket::Second }));
    assert!(matches!(
        refused,
        Err(LoadActionError::ActiveTileMissing(FrontendAction::PurchaseCard { slot: SlotInMarket::Second }))
    ));
    assert!(manager.loaded_action().is_none());

    manager.set_active_tile(Some(TileId(12)));
    manager.try_load_action(Some(FrontendAction::PurchaseCard { slot: SlotInMarket::Second })).unwrap();
    assert!(manager.process_cache().is_none());
    assert!(matches!(
        manager.loaded_request(),
        Some(RequestType::PurchaseCard { market_tile: TileId(12), slot_in_market: SlotInMarket::Second })
    ));
    // changing the active tile unloads an action aimed at it
    manager.set_active_tile(Some(TileId(13)));
    assert!(manager.loaded_action().is_none());

    // using a card needs no active tile, and stays loaded when it changes
    let card = CardFunction::TileConversionToSingleType { selection_bounds: 1..4, target_type: TileType::Ex1 };
    let cache = card.action_cache(&world).unwrap();
    manager.set_active_tile(None);
    manager
        .try_load_action(Some(FrontendAction::UseCard {
            index: core_game_logic::players::InventoryIndex(1),
            cache,
        }))
        .unwrap();
    manager.set_active_tile(Some(TileId(3)));
    assert!(manager.loaded_action().is_some());
    match manager.process_cache_mut() {
        Some(ActionProcessCache::TileAction(c)) => {
            c.try_select_tile_and_update_elligibility(select(2), &world).unwrap();
            c.try_select_tile_and_update_elligibility(select(5), &world).unwrap();
        },
        _ => panic!(),
    }
    match manager.loaded_request() {
        Some(RequestType::UseCard { inventory_index, input: InputData::SelectedTiles(tiles) }) => {
            assert_eq!(inventory_index, core_game_logic::players::InventoryIndex(1));
            assert_eq!(tiles, vec![select(2), select(5)]);
        },
        _ => panic!(),
    }
    manager.try_load_action(None).unwrap();
    assert!(manager.loaded_action().is_none());
    assert_eq!(manager.active_tile(), Some(TileId(3)));
}

#[test]
fn the_tower_of_a_player_is_their_first_win_condition() {
    let mut world = CreationParameters::testing_default();
    let tower = |tile: u32, owner: u8| {
        let mut p = piece_on(tile, owner, 10, 0);
        p.is_win_condition = true;
        p
    };
    world.pieces.push(piece_on(3, 0, 10, 0));
    world.pieces.push(tower(5, 1));
    world.pieces.push(tower(7, 0));
    world.pieces.push(tower(9, 0));
    assert_eq!(tower_of_player(&world, PlayerId(0)), Some(TileId(7)));
    assert_eq!(tower_of_player(&world, PlayerId(1)), Some(TileId(5)));
    assert_eq!(tower_of_player(&world, PlayerId(2)), None);
}

fn loaded(manager_tile: Option<u32>, action: FrontendAction) -> ActionInputManager {
    let mut manager = ActionInputManager::default();
    manager.set_active_tile(manager_tile.map(TileId));
    manager.try_load_action(Some(action)).unwrap();
    manager
}

#[test]
fn blockers_of_cards_and_turns() {
    let world = CreationParameters::testing_default();
    assert_eq!(
        action_blockers(&ActionInputManager::default(), &world, PlayerId(0)),
        Err(BlockerError::NoLoadedAction)
    );
    let mut manager = loaded(
        None,
        FrontendAction::UseCard {
            index: core_game_logic::players::InventoryIndex(0),
            cache: ActionProcessCache::TileAction(conversion_cache(&world, 2..4)),
        },
    );
    let blocker = action_blockers(&manager, &world, PlayerId(0)).unwrap().unwrap();
    assert_eq!(blocker, Blocker::SelectMoreTiles(2));
    assert_eq!(blocker.message(), "select at least 2 more tiles");
    if let Some(ActionProcessCache::TileAction(c)) = manager.process_cache_mut() {
        c.try_select_tile_and_update_elligibility(select(1), &world).unwrap();
        c.try_select_tile_and_update_elligibility(select(2), &world).unwrap();
    }
    assert_eq!(action_blockers(&manager, &world, PlayerId(0)), Ok(None));
    let blocker = action_blockers(&manager, &world, PlayerId(1)).unwrap().unwrap();
    assert_eq!(blocker, Blocker::NotYourTurn);
    assert_eq!(blocker.message(), "It is not your turn");
}

#[test]
fn blockers_of_purchases() {
    let mut world = CreationParameters::testing_default();
    world.tiles[5].market = Some(core_game_logic::tiles::MarketTile(MarketId(0)));
    world.pieces.push(piece_on(5, 0, 5, 0));
    let purchase = |tile: u32| loaded(Some(tile), FrontendAction::PurchaseCard { slot: SlotInMarket::First });
    assert_eq!(action_blockers(&purchase(5), &world, PlayerId(0)), Ok(None));
    assert_eq!(action_blockers(&purchase(6), &world, PlayerId(0)), Err(BlockerError::NotAMarketTile));
    assert_eq!(action_blockers(&purchase(70), &world, PlayerId(0)), Err(BlockerError::TileOffBoard(TileId(70))));
    assert_eq!(
        action_blockers(&purchase(5), &world, PlayerId(1)),
        Ok(Some(Blocker::MarketNotOccupied))
    );
    world.players[0].coins.0 = 2;
    assert_eq!(
        action_blockers(&purchase(5), &world, PlayerId(0)),
        Ok(Some(Blocker::InsufficientFunds))
    );
    for card in 0..3 {
        world.players[0].inventory.try_add_card(CardId(card)).unwrap();
    }
    assert_eq!(action_blockers(&purchase(5), &world, PlayerId(0)), Ok(Some(Blocker::InventoryFull)));
    assert_eq!(Blocker::InventoryFull.message(), "Inventory is full");
}

#[test]
fn blockers_of_orders() {
    let mut world = CreationParameters::testing_default();
    world.pieces.push(piece_on(5, 0, 5, 0));
    let order = |world: &GameWorld, tile: u32| {
        loaded(
            Some(tile),
            FrontendAction::UseOrder {
                index_of_order_on_active_piece: core_game_logic::inputs_interface::OrderAtPieceIndex(0),
                cache: ActionProcessCache::TileAction(conversion_cache(world, 0..3)),
            },
        )
    };
    assert_eq!(action_blockers(&order(&world, 6), &world, PlayerId(0)), Err(BlockerError::VacantActiveTile));
    // the piece has no orders left this round
    assert_eq!(
        action_blockers(&order(&world, 5), &world, PlayerId(0)),
        Ok(Some(Blocker::PieceOutOfOrders))
    );
    world.pieces[0].orders_receivable.currently = 1;
    assert_eq!(action_blockers(&order(&world, 5), &world, PlayerId(0)), Ok(None));
    assert_eq!(
        action_blockers(&order(&world, 5), &world, PlayerId(1)),
        Ok(Some(Blocker::NotYourPiece))
    );
    world.players[0].orders_remaining.remaining = 0;
    assert_eq!(
        action_blockers(&order(&world, 5), &world, PlayerId(0)),
        Ok(Some(Blocker::OutOfOrders))
    );
}

#[test]
fn the_selections_are_the_successful_ones_in_order() {
    let world = CreationParameters::testing_default();
    let mut cache = conversion_cache(&world, 0..5);
    let attempts = [3u32, 9, 3, 12, 9, 40];
    let mut succeeded = Vec::new();
    for tile in attempts {
        if cache.try_select_tile_and_update_elligibility(select(tile), &world).is_ok() {
            succeeded.push(select(tile));
        }
    }
    assert_eq!(cache.selected_tiles(), succeeded.as_slice());
    assert_eq!(succeeded.len(), 4);
    let showing_selected = cache
        .view_selection_states()
        .iter()
        .filter(|s| matches!(s, State::Selected(_)))
        .count();
    assert_eq!(showing_selected, cache.amount_currently_selected());
}
