//! The cards, markets, piece archetypes and orders that games are set up
//! with until real content is loaded, and that tests play with.
use vstd::prelude::*;

use crate::cards::{CardFunction, CardId, LogicalCard};
use crate::markets::{CardPrice, LogicalMarket, MarketId};
use crate::orders::{LogicalOrder, OrderFunction, OrderId};
use crate::pieces::{ArchetypeId, LogicalPieceArchetype, Orders};
use crate::tile_based_actions::spawn_pieces::SpawningRestrictions;
use crate::tiles::TileType;

verus! {

pub open spec fn testing_cards() -> Seq<LogicalCard> {
    seq![
        LogicalCard {
            functionality: CardFunction::TileConversionToSingleType {
                selection_bounds: std::ops::Range { start: 1, end: 3 },
                target_type: TileType::Basic,
            },
        },
        LogicalCard {
            functionality: CardFunction::TileConversionToSingleType {
                selection_bounds: std::ops::Range { start: 1, end: 1 },
                target_type: TileType::Ex1,
            },
        },
        LogicalCard {
            functionality: CardFunction::SpawnPiece {
                selection_bounds: std::ops::Range { start: 1, end: 2 },
                piece_archetype: ArchetypeId(1),
                restrictions: SpawningRestrictions::Anywhere,
            },
        },
        LogicalCard {
            functionality: CardFunction::SpawnMarket {
                selection_bounds: std::ops::Range { start: 1, end: 3 },
                market: MarketId(0),
            },
        },
        LogicalCard {
            functionality: CardFunction::SpawnPiece {
                selection_bounds: std::ops::Range { start: 1, end: 1 },
                piece_archetype: ArchetypeId(2),
                restrictions: SpawningRestrictions::Anywhere,
            },
        },
        LogicalCard {
            functionality: CardFunction::SpawnPiece {
                selection_bounds: std::ops::Range { start: 1, end: 1 },
                piece_archetype: ArchetypeId(0),
                restrictions: SpawningRestrictions::Anywhere,
            },
        },
    ]
}

pub fn logical_cards_for_testing() -> (r: Vec<LogicalCard>)
    ensures
        r@ == testing_cards(),
{
    let r = vec![
        LogicalCard {
            functionality: CardFunction::TileConversionToSingleType {
                selection_bounds: 1..3,
                target_type: TileType::Basic,
            },
        },
        LogicalCard {
            functionality: CardFunction::TileConversionToSingleType {
                selection_bounds: 1..1,
                target_type: TileType::Ex1,
            },
        },
        LogicalCard {
            functionality: CardFunction::SpawnPiece {
                selection_bounds: 1..2,
                piece_archetype: ArchetypeId(1),
                restrictions: SpawningRestrictions::Anywhere,
            },
        },
        LogicalCard {
            functionality: CardFunction::SpawnMarket { selection_bounds: 1..3, market: MarketId(0) },
        },
        LogicalCard {
            functionality: CardFunction::SpawnPiece {
                selection_bounds: 1..1,
                piece_archetype: ArchetypeId(2),
                restrictions: SpawningRestrictions::Anywhere,
            },
        },
        LogicalCard {
            functionality: CardFunction::SpawnPiece {
                selection_bounds: 1..1,
                piece_archetype: ArchetypeId(0),
                restrictions: SpawningRestrictions::Anywhere,
            },
        },
    ];
    proof {
        assert(r@ =~= testing_cards());
    }
    r
}

pub open spec fn testing_markets() -> Seq<LogicalMarket> {
    seq![
        LogicalMarket([(CardId(0), CardPrice(3)), (CardId(2), CardPrice(5)), (CardId(3), CardPrice(1))]),
        LogicalMarket([(CardId(1), CardPrice(3)), (CardId(4), CardPrice(5)), (CardId(5), CardPrice(1))]),
    ]
}

pub fn logical_markets_for_testing() -> (r: Vec<LogicalMarket>)
    ensures
        r@ == testing_markets(),
{
    let r = vec![
        LogicalMarket([(CardId(0), CardPrice(3)), (CardId(2), CardPrice(5)), (CardId(3), CardPrice(1))]),
        LogicalMarket([(CardId(1), CardPrice(3)), (CardId(4), CardPrice(5)), (CardId(5), CardPrice(1))]),
    ];
    proof {
        assert(r@ =~= testing_markets());
    }
    r
}

pub open spec fn testing_starting_cards() -> Seq<CardId> {
    seq![CardId(1), CardId(3)]
}

pub fn starting_cards_for_testing() -> (r: Vec<CardId>)
    ensures
        r@ == testing_starting_cards(),
{
    let r = vec![CardId(1), CardId(3)];
    proof {
        assert(r@ =~= testing_starting_cards());
    }
    r
}

/// A piece archetype that gives no extra orders, is worth nothing when
/// killed, and is neither a win condition nor a spawn point.
pub open spec fn plain_archetype(max_health: u32, starting_orders_per_round: u8, orders: Orders) -> LogicalPieceArchetype {
    LogicalPieceArchetype {
        max_health,
        starting_orders_per_round,
        orders,
        gives_extra_player_order: false,
        default_monetary_value: 0,
        is_win_condition: false,
        is_spawnpoint: false,
    }
}

pub open spec fn testing_archetypes() -> Seq<LogicalPieceArchetype> {
    seq![
        plain_archetype(
            23,
            1,
            Orders([Some(OrderId(0)), Some(OrderId(2)), Some(OrderId(1)), None, None]),
        ),
        plain_archetype(
            1,
            2,
            Orders([Some(OrderId(1)), Some(OrderId(0)), Some(OrderId(1)), None, None]),
        ),
        plain_archetype(12, 1, Orders([Some(OrderId(1)), None, None, None, None])),
    ]
}

fn archetype(max_health: u32, starting_orders_per_round: u8, orders: Orders) -> (r:
    LogicalPieceArchetype)
    ensures
        r == plain_archetype(max_health, starting_orders_per_round, orders),
{
    LogicalPieceArchetype {
        max_health,
        starting_orders_per_round,
        orders,
        gives_extra_player_order: false,
        default_monetary_value: 0,
        is_win_condition: false,
        is_spawnpoint: false,
    }
}

pub fn logical_pieces_for_testing() -> (r: Vec<LogicalPieceArchetype>)
    ensures
        r@ == testing_archetypes(),
{
    let r = vec![
        archetype(23, 1, Orders([Some(OrderId(0)), Some(OrderId(2)), Some(OrderId(1)), None, None])),
        archetype(1, 2, Orders([Some(OrderId(1)), Some(OrderId(0)), Some(OrderId(1)), None, None])),
        archetype(12, 1, Orders([Some(OrderId(1)), None, None, None, None])),
    ];
    proof {
        assert(r@ =~= testing_archetypes());
    }
    r
}

pub open spec fn testing_orders() -> Seq<LogicalOrder> {
    seq![
        LogicalOrder { functionality: OrderFunction::Ex1 },
        LogicalOrder {
            functionality: OrderFunction::ConvertAdjacentTiles {
                selection_range: std::ops::Range { start: 1, end: 1 },
                target_type: TileType::Basic,
            },
        },
        LogicalOrder {
            functionality: OrderFunction::ConvertAdjacentTiles {
                selection_range: std::ops::Range { start: 1, end: 3 },
                target_type: TileType::Ex1,
            },
        },
    ]
}

pub fn logical_orders_for_testing() -> (r: Vec<LogicalOrder>)
    ensures
        r@ == testing_orders(),
{
    let r = vec![
        LogicalOrder { functionality: OrderFunction::Ex1 },
        LogicalOrder {
            functionality: OrderFunction::ConvertAdjacentTiles {
                selection_range: 1..1,
                target_type: TileType::Basic,
            },
        },
        LogicalOrder {
            functionality: OrderFunction::ConvertAdjacentTiles {
                selection_range: 1..3,
                target_type: TileType::Ex1,
            },
        },
    ];
    proof {
        assert(r@ =~= testing_orders());
    }
    r
}

} // verus!
