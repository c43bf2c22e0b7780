//! Orders: what pieces can be commanded to do.
use vstd::prelude::*;

use crate::cards::fresh_cache;
use crate::requests::ActionProcessCache;
use crate::tile_based_actions::change_tile_type::{AdjecentRestriction, ConvertTileTo};
use crate::tile_based_actions::{
    InvalidSelectionBounds, TileAction, TileActionFunctionality, TileActionProcessCache,
};
use crate::tile_mapping::TileId;
use crate::tiles::TileType;
use crate::world::{GameWorld, BOARD_TILE_LIMIT};

verus! {

/// What an order does.
#[derive(Debug, PartialEq, Eq)]
pub enum OrderFunction {
    ConvertAdjacentTiles {
        selection_range: std::ops::Range<usize>,
        target_type: TileType,
    },
    Ex1,
}

#[derive(Debug, PartialEq, Eq)]
pub struct LogicalOrder {
    pub functionality: OrderFunction,
}

/// The index of an order in the order directory.
#[derive(Debug, Clone, Copy, PartialEq, Eq, Structural, PartialOrd, Ord, Hash)]
pub struct OrderId(pub u32);

/// Tried to retrieve order data using an invalid OrderId.
#[derive(Debug, Clone, Copy, PartialEq, Eq, Structural)]
pub struct InvaildIDErr(pub OrderId);

/// All orders of a game, indexed by `OrderId`.
#[derive(Debug)]
pub struct OrderDirectory(pub Vec<LogicalOrder>);

impl OrderDirectory {
    pub fn get_card(&self, id: OrderId) -> (r: Result<&LogicalOrder, InvaildIDErr>)
        ensures
            id.0 < self.0@.len() ==> r == Ok::<&LogicalOrder, InvaildIDErr>(&self.0@[id.0 as int]),
            id.0 >= self.0@.len() ==> r == Err::<&LogicalOrder, InvaildIDErr>(InvaildIDErr(id)),
    {
        if (id.0 as usize) < self.0.len() {
            Ok(&self.0[id.0 as usize])
        } else {
            Err(InvaildIDErr(id))
        }
    }

    pub fn new(orders: Vec<LogicalOrder>) -> (r: Self)
        ensures
            r.0@ == orders@,
    {
        OrderDirectory(orders)
    }
}

#[derive(Debug, Clone, Copy, PartialEq, Eq, Structural)]
pub enum OrderFunctionConversionError {
    /// The order's selection bounds did not fit its action.
    CouldNotConvertToTileAction(InvalidSelectionBounds),
}

/// The tile action an order performs when given to the piece on `tile`.
/// `Ex1` has no action yet; the value given for it is never used.
pub open spec fn order_tile_action(function: OrderFunction, tile: TileId) -> TileActionFunctionality {
    match function {
        OrderFunction::ConvertAdjacentTiles { target_type, .. } => TileActionFunctionality::ConvertTileTo(
            ConvertTileTo {
                target_type,
                restrictions: Some(AdjecentRestriction { adjacent_to: tile }),
            },
        ),
        OrderFunction::Ex1 => TileActionFunctionality::ConvertTileTo(
            ConvertTileTo { target_type: TileType::Basic, restrictions: None },
        ),
    }
}

/// The selection bounds of an order: at least `start` tiles must be selected,
/// and once `end` are the selection closes.
pub open spec fn order_selection_bounds(function: OrderFunction) -> std::ops::Range<usize> {
    match function {
        OrderFunction::ConvertAdjacentTiles { selection_range, .. } => selection_range,
        OrderFunction::Ex1 => 0..0,
    }
}

impl OrderFunction {
    /// Starts the selection process for giving this order to the piece on
    /// `piece_occupies_tile`. `Ex1` has no action yet.
    pub fn action_cache(&self, piece_occupies_tile: TileId, world: &GameWorld) -> (r: Result<
        ActionProcessCache,
        OrderFunctionConversionError,
    >)
        requires
            !(*self is Ex1),
            world.wf(),
            (piece_occupies_tile.0 as int) < BOARD_TILE_LIMIT,
        ensures
            r matches Ok(ActionProcessCache::TileAction(cache)) && fresh_cache(
                cache,
                order_tile_action(*self, piece_occupies_tile),
                order_selection_bounds(*self),
                world,
            ),
    {
        match self {
            OrderFunction::ConvertAdjacentTiles { selection_range, target_type } => {
                let action = TileActionFunctionality::ConvertTileTo(
                    ConvertTileTo {
                        target_type: *target_type,
                        restrictions: Some(AdjecentRestriction { adjacent_to: piece_occupies_tile }),
                    },
                );
                let tile_action = match TileAction::new(
                    action,
                    selection_range.start..selection_range.end,
                ) {
                    Ok(a) => a,
                    Err(e) => {
                        return Err(OrderFunctionConversionError::CouldNotConvertToTileAction(e));
                    },
                };
                Ok(
                    ActionProcessCache::TileAction(
                        TileActionProcessCache::initialize(tile_action, world),
                    ),
                )
            },
            OrderFunction::Ex1 => {
                assert(false);
                Ok(ActionProcessCache::Ex1)
            },
        }
    }
}

} // verus!
