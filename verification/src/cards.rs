//! Cards: what they do when used, and the directory of all cards of a game.
use vstd::prelude::*;

use crate::markets::MarketId;
use crate::pieces::ArchetypeId;
use crate::players::PlayerId;
use crate::requests::ActionProcessCache;
use crate::tile_based_actions::change_tile_type::ConvertTileTo;
use crate::tile_based_actions::make_market_tile::MakeMarketTile;
use crate::tile_based_actions::selection_mechanics::{SelectedTile, State};
use crate::tile_based_actions::spawn_pieces::{SpawnPieces, SpawningRestrictions};
use crate::tile_based_actions::{
    InvalidSelectionBounds, TileAction, TileActionFunctionality, TileActionProcessCache,
};
use crate::tiles::TileType;
use crate::world::GameWorld;

verus! {

/// The index of a card in the card directory.
#[derive(Debug, Clone, Copy, PartialEq, Eq, Structural, PartialOrd, Ord, Hash)]
pub struct CardId(pub u32);

/// What using a card does.
#[derive(Debug, PartialEq, Eq)]
pub enum CardFunction {
    TileConversionToSingleType {
        selection_bounds: std::ops::Range<usize>,
        target_type: TileType,
    },
    SpawnPiece {
        selection_bounds: std::ops::Range<usize>,
        piece_archetype: ArchetypeId,
        restrictions: SpawningRestrictions,
    },
    SpawnMarket {
        selection_bounds: std::ops::Range<usize>,
        market: MarketId,
    },
}

#[derive(Debug, PartialEq, Eq)]
pub struct LogicalCard {
    pub functionality: CardFunction,
}

/// Tried to retrieve card data using an invalid CardId.
#[derive(Debug, Clone, Copy, PartialEq, Eq, Structural)]
pub struct InvaildIDErr(pub CardId);

/// All cards of a game, indexed by `CardId`.
#[derive(Debug)]
pub struct CardDirectory(pub Vec<LogicalCard>);

impl CardDirectory {
    pub fn get_card(&self, id: CardId) -> (r: Result<&LogicalCard, InvaildIDErr>)
        ensures
            id.0 < self.0@.len() ==> r == Ok::<&LogicalCard, InvaildIDErr>(&self.0@[id.0 as int]),
            id.0 >= self.0@.len() ==> r == Err::<&LogicalCard, InvaildIDErr>(InvaildIDErr(id)),
    {
        if (id.0 as usize) < self.0.len() {
            Ok(&self.0[id.0 as usize])
        } else {
            Err(InvaildIDErr(id))
        }
    }

    pub fn new(cards: Vec<LogicalCard>) -> (r: Self)
        ensures
            r.0@ == cards@,
    {
        CardDirectory(cards)
    }
}

#[derive(Debug, Clone, Copy, PartialEq, Eq, Structural)]
pub enum CardFunctionConversionError {
    /// The card's selection bounds did not fit its action.
    CouldNotConvertToTileAction(InvalidSelectionBounds),
}

/// The tile action a card performs when used by `player`.
pub open spec fn card_tile_action(function: CardFunction, player: PlayerId) -> TileActionFunctionality {
    match function {
        CardFunction::TileConversionToSingleType { target_type, .. } => TileActionFunctionality::ConvertTileTo(
            ConvertTileTo { target_type, restrictions: None },
        ),
        CardFunction::SpawnPiece { piece_archetype, restrictions, .. } => TileActionFunctionality::SpawnPieces(
            SpawnPieces { archetype: piece_archetype, owner: player, restrictions },
        ),
        CardFunction::SpawnMarket { market, .. } => TileActionFunctionality::MakeMarketTile(
            MakeMarketTile { market },
        ),
    }
}

/// The selection bounds of a card: at least `start` tiles must be selected,
/// and once `end` are the selection closes.
pub open spec fn card_selection_bounds(function: CardFunction) -> std::ops::Range<usize> {
    match function {
        CardFunction::TileConversionToSingleType { selection_bounds, .. } => selection_bounds,
        CardFunction::SpawnPiece { selection_bounds, .. } => selection_bounds,
        CardFunction::SpawnMarket { selection_bounds, .. } => selection_bounds,
    }
}

/// A fresh selection process for `action`: nothing selected, and the tiles
/// of `world` marked by the action.
pub open spec fn fresh_cache(
    cache: TileActionProcessCache,
    action: TileActionFunctionality,
    bounds: std::ops::Range<usize>,
    world: &GameWorld,
) -> bool {
    &&& cache.action.action_functionality == action
    &&& cache.action.tile_range_for_execution == bounds
    &&& cache.selections@.selections == Seq::<SelectedTile>::empty()
    &&& cache.selections@.states == action.eligibility(
        Seq::new(world.tiles@.len() as nat, |i: int| State::Neither),
        world@,
    )
    &&& cache.wf(world@)
}

/// What a card does when `player` uses it: a spawn card spawns its
/// archetype for `player`, with its restrictions; a conversion card
/// converts tiles to its type anywhere; a market card places its market.
/// The card's selection bounds come with it.
pub proof fn lemma_card_action_of_player(function: CardFunction, player: PlayerId)
    ensures
        function matches CardFunction::SpawnPiece { piece_archetype, restrictions, selection_bounds }
            ==> card_tile_action(function, player) == TileActionFunctionality::SpawnPieces(
            SpawnPieces { archetype: piece_archetype, owner: player, restrictions },
        ) && card_selection_bounds(function) == selection_bounds,
        function matches CardFunction::TileConversionToSingleType { target_type, selection_bounds }
            ==> card_tile_action(function, player) == TileActionFunctionality::ConvertTileTo(
            ConvertTileTo { target_type, restrictions: None },
        ) && card_selection_bounds(function) == selection_bounds,
        function matches CardFunction::SpawnMarket { market, selection_bounds }
            ==> card_tile_action(function, player) == TileActionFunctionality::MakeMarketTile(
            MakeMarketTile { market },
        ) && card_selection_bounds(function) == selection_bounds,
{
}

impl CardFunction {
    /// Starts the selection process for using this card; the active player
    /// uses it.
    pub fn action_cache(&self, world: &GameWorld) -> (r: Result<
        ActionProcessCache,
        CardFunctionConversionError,
    >)
        requires
            world.wf(),
        ensures
            r matches Ok(ActionProcessCache::TileAction(cache)) && fresh_cache(
                cache,
                card_tile_action(*self, world@.active_player),
                card_selection_bounds(*self),
                world,
            ),
            *self is SpawnPiece ==> (r matches Ok(ActionProcessCache::TileAction(cache)) && (
            cache.action.action_functionality is SpawnPieces
                && cache.action.action_functionality->SpawnPieces_0.owner
                == world@.active_player)),
    {
        let (action, bounds) = match self {
            CardFunction::TileConversionToSingleType { selection_bounds, target_type } => (
                TileActionFunctionality::ConvertTileTo(
                    ConvertTileTo { target_type: *target_type, restrictions: None },
                ),
                selection_bounds.start..selection_bounds.end,
            ),
            CardFunction::SpawnMarket { selection_bounds, market } => (
                TileActionFunctionality::MakeMarketTile(MakeMarketTile { market: *market }),
                selection_bounds.start..selection_bounds.end,
            ),
            CardFunction::SpawnPiece { selection_bounds, piece_archetype, restrictions } => (
                TileActionFunctionality::SpawnPieces(
                    SpawnPieces {
                        archetype: *piece_archetype,
                        owner: world.active_player.0,
                        restrictions: *restrictions,
                    },
                ),
                selection_bounds.start..selection_bounds.end,
            ),
        };
        let tile_action = match TileAction::new(action, bounds) {
            Ok(a) => a,
            Err(e) => {
                return Err(CardFunctionConversionError::CouldNotConvertToTileAction(e));
            },
        };
        Ok(ActionProcessCache::TileAction(TileActionProcessCache::initialize(tile_action, world)))
    }
}

} // verus!
