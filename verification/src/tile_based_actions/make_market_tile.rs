//! Placing markets on tiles.
use vstd::prelude::*;

use crate::forensic_action_descriptions::{
    link, plain, views_of, ForensicDescribe, LinkedGamplayElement, TextSnippet, TextSnippetView,
};

use crate::markets::MarketId;
use crate::requests::{ActionEffect, ChangeLog};
use crate::tile_based_actions::change_tile_type::{is_selected_tile, selections_on_board};
use crate::tile_based_actions::selection_mechanics::{
    made_elligible, made_inelligible, SelectedTile, SelectionData, State,
};
use crate::tile_based_actions::TileActionFunctionalityCapabilityConstants;
use crate::tile_mapping::TileId;
use crate::tiles::{LogicalTile, MarketTile};
use crate::world::{same_rules, GameWorld, WorldView, BOARD_TILE_LIMIT};

verus! {

/// Places `market` on each selected tile.
#[derive(Debug, Clone, Copy, PartialEq, Eq)]
pub struct MakeMarketTile {
    pub market: MarketId,
}

impl TileActionFunctionalityCapabilityConstants for MakeMarketTile {
    open spec fn spec_acceptable_selection_counts(&self) -> (usize, usize) {
        (0, usize::MAX)
    }

    fn acceptable_selection_counts(&self) -> (r: std::ops::Range<usize>) {
        0..usize::MAX
    }
}

/// The tiles after `market` is placed on each selected tile.
pub open spec fn tiles_with_markets(
    tiles: Seq<LogicalTile>,
    selections: Seq<SelectedTile>,
    market: MarketId,
) -> Seq<LogicalTile> {
    Seq::new(
        tiles.len(),
        |i: int|
            if is_selected_tile(selections, i) {
                LogicalTile { tile_type: tiles[i].tile_type, market: Some(MarketTile(market)) }
            } else {
                tiles[i]
            },
    )
}

impl MakeMarketTile {
    /// Selected tiles stay selected; every other tile without a market is
    /// elligible, and tiles with a market are not.
    pub open spec fn eligibility(&self, states: Seq<State>, tiles: Seq<LogicalTile>) -> Seq<
        State,
    > {
        Seq::new(
            states.len(),
            |i: int|
                if states[i] is Selected {
                    states[i]
                } else if tiles[i].market is Some {
                    State::Neither
                } else {
                    State::Elligible
                },
        )
    }

    pub fn update_eligibility(&self, selection_status: &mut SelectionData, world: &GameWorld)
        requires
            old(selection_status)@.states.len() == world.tiles@.len(),
            world.tiles@.len() <= BOARD_TILE_LIMIT,
        ensures
            final(selection_status)@.states == self.eligibility(
                old(selection_status)@.states,
                world.tiles@,
            ),
            final(selection_status)@.selections == old(selection_status)@.selections,
    {
        let ghost before = selection_status@;
        selection_status.set_all_possible_elligible();
        let ghost after_set = selection_status@;
        let mut i: usize = 0;
        while i < world.tiles.len()
            invariant
                0 <= i <= world.tiles@.len(),
                world.tiles@.len() <= BOARD_TILE_LIMIT,
                before.states.len() == world.tiles@.len(),
                after_set.states == before.states.map_values(|s: State| made_elligible(s)),
                selection_status@.selections == before.selections,
                selection_status@.states.len() == before.states.len(),
                forall|j: int|
                    #![trigger selection_status@.states[j]]
                    0 <= j < before.states.len() ==> selection_status@.states[j] == if j < i
                        && world.tiles@[j].market is Some {
                        made_inelligible(after_set.states[j])
                    } else {
                        after_set.states[j]
                    },
            decreases world.tiles@.len() - i,
        {
            if world.tiles[i].market.is_some() {
                selection_status.maybe_set_inelligible(TileId(i as u32));
            }
            i = i + 1;
        }
        proof {
            assert(selection_status@.states =~= self.eligibility(before.states, world.tiles@));
        }
    }

    /// The world and log after placing the market: every selected tile
    /// gets the market, nothing else changes, and one new market is logged
    /// per selection.
    pub open spec fn execution(&self, before: WorldView, selections: Seq<SelectedTile>) -> (
        WorldView,
        Seq<ActionEffect>,
    ) {
        (
            WorldView { tiles: tiles_with_markets(before.tiles, selections, self.market), ..before },
            selections.map_values(
                |s: SelectedTile| ActionEffect::SpawnedNewMarket { tile: s.id, market: self.market },
            ),
        )
    }

    /// Places the market on each selected tile, logging one new market per
    /// selection.
    pub fn execute(&self, validated_selections: &[SelectedTile], world: &mut GameWorld) -> (log:
        ChangeLog)
        requires
            selections_on_board(validated_selections@, old(world).tiles@.len() as int),
        ensures
            (final(world)@, log@) == self.execution(old(world)@, validated_selections@),
    {
        let ghost initial = world.tiles@;
        let mut k: usize = 0;
        while k < validated_selections.len()
            invariant
                0 <= k <= validated_selections@.len(),
                selections_on_board(validated_selections@, initial.len() as int),
                world.tiles@ == tiles_with_markets(
                    initial,
                    validated_selections@.take(k as int),
                    self.market,
                ),
                world.pieces@ == old(world).pieces@,
                world.players@ == old(world).players@,
                world.active_player == old(world).active_player,
                same_rules(world, old(world)),
                initial == old(world).tiles@,
            decreases validated_selections@.len() - k,
        {
            let tile = validated_selections[k];
            let tile_type = world.tiles[tile.id.0 as usize].tile_type;
            world.tiles.set(
                tile.id.0 as usize,
                LogicalTile { tile_type: tile_type, market: Some(MarketTile(self.market)) },
            );
            proof {
                let taken = validated_selections@.take(k as int + 1);
                assert forall|i: int| 0 <= i < initial.len() implies #[trigger] world.tiles@[i]
                    == tiles_with_markets(initial, taken, self.market)[i] by {
                    if is_selected_tile(taken, i) && i != tile.id.0 {
                        let m = choose|m: int| 0 <= m < taken.len() && taken[m].id.0 == i;
                        assert(validated_selections@.take(k as int)[m] == taken[m]);
                    }
                    if is_selected_tile(validated_selections@.take(k as int), i) {
                        let m = choose|m: int|
                            0 <= m < k && validated_selections@.take(k as int)[m].id.0 == i;
                        assert(taken[m] == validated_selections@.take(k as int)[m]);
                    }
                    if i == tile.id.0 {
                        assert(taken[k as int].id.0 == i);
                    }
                }
                assert(world.tiles@ =~= tiles_with_markets(initial, taken, self.market));
            }
            k = k + 1;
        }
        proof {
            assert(validated_selections@.take(k as int) =~= validated_selections@);
        }
        let mut log = ChangeLog::new();
        let mut k: usize = 0;
        while k < validated_selections.len()
            invariant
                0 <= k <= validated_selections@.len(),
                log@ == validated_selections@.take(k as int).map_values(
                    |s: SelectedTile| ActionEffect::SpawnedNewMarket { tile: s.id, market: self.market },
                ),
            decreases validated_selections@.len() - k,
        {
            log.write(
                ActionEffect::SpawnedNewMarket { tile: validated_selections[k].id, market: self.market },
            );
            proof {
                assert(log@ =~= validated_selections@.take(k as int + 1).map_values(
                    |s: SelectedTile| ActionEffect::SpawnedNewMarket { tile: s.id, market: self.market },
                ));
            }
            k = k + 1;
        }
        proof {
            assert(validated_selections@.take(k as int) =~= validated_selections@);
            assert(world@ =~= self.execution(old(world)@, validated_selections@).0);
        }
        log
    }
}

impl ForensicDescribe for MakeMarketTile {
    open spec fn description(&self) -> Seq<TextSnippetView> {
        seq![
            plain("Spawns "@),
            link(LinkedGamplayElement::Market(self.market)),
            plain(" on selected tiles. You must occupy a market in order to purchase its wares."@),
        ]
    }

    fn forensic_description(&self) -> (r: Vec<TextSnippet>)
        ensures
            views_of(r@) == self.description(),
    {
        let r = vec![
            TextSnippet::new("Spawns "),
            TextSnippet::link(LinkedGamplayElement::Market(self.market)),
            TextSnippet::new(
                " on selected tiles. You must occupy a market in order to purchase its wares.",
            ),
        ];
        proof {
            assert(views_of(r@) =~= self.description());
        }
        r
    }
}

} // verus!
