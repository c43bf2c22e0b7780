//! Converting tiles into another type of tile.
use vstd::prelude::*;

use crate::forensic_action_descriptions::{
    link, plain, views_of, ForensicDescribe, LinkedGamplayElement, TextSnippet, TextSnippetView,
};

use crate::requests::{ActionEffect, ChangeLog};
use crate::tile_based_actions::selection_mechanics::{
    made_elligible, SelectedTile, SelectionData, State,
};
use crate::tile_based_actions::TileActionFunctionalityCapabilityConstants;
use crate::tile_mapping::{tiles_adjacent, valid_neighbours, TileId};
use crate::tiles::{LogicalTile, TileType};
use crate::world::{same_rules, GameWorld, WorldView, BOARD_TILE_LIMIT};

verus! {

/// Converts the selected tiles into tiles of `target_type`.
#[derive(Debug, Clone, Copy, PartialEq, Eq)]
pub struct ConvertTileTo {
    pub target_type: TileType,
    /// If present, only tiles next to this tile may be converted.
    pub restrictions: Option<AdjecentRestriction>,
}

#[derive(Debug, Clone, Copy, PartialEq, Eq, Structural)]
pub struct AdjecentRestriction {
    pub adjacent_to: TileId,
}

impl TileActionFunctionalityCapabilityConstants for ConvertTileTo {
    open spec fn spec_acceptable_selection_counts(&self) -> (usize, usize) {
        (0, usize::MAX)
    }

    fn acceptable_selection_counts(&self) -> (r: std::ops::Range<usize>) {
        0..usize::MAX
    }
}

/// Some selection names the tile with id `i`.
pub open spec fn is_selected_tile(selections: Seq<SelectedTile>, i: int) -> bool {
    exists|k: int| 0 <= k < selections.len() && selections[k].id.0 == i
}

/// Every selection names a tile of a board with `tile_count` tiles.
pub open spec fn selections_on_board(selections: Seq<SelectedTile>, tile_count: int) -> bool {
    forall|k: int| #![trigger selections[k]] 0 <= k < selections.len() ==> selections[k].id.0 < tile_count
}

/// The tiles after each selected tile is converted to `target`.
pub open spec fn converted_tiles(
    tiles: Seq<LogicalTile>,
    selections: Seq<SelectedTile>,
    target: TileType,
) -> Seq<LogicalTile> {
    Seq::new(
        tiles.len(),
        |i: int|
            if is_selected_tile(selections, i) {
                LogicalTile { tile_type: target, market: tiles[i].market }
            } else {
                tiles[i]
            },
    )
}

impl ConvertTileTo {
    /// The selection states once this action has marked which tiles may be
    /// selected: selected tiles stay selected; without restrictions every
    /// other tile becomes elligible, with one only the tiles next to the
    /// restricting tile do.
    pub open spec fn eligibility(&self, states: Seq<State>) -> Seq<State> {
        match self.restrictions {
            None => states.map_values(|s: State| made_elligible(s)),
            Some(restriction) => Seq::new(
                states.len(),
                |i: int|
                    if states[i] is Selected {
                        states[i]
                    } else if tiles_adjacent(i, restriction.adjacent_to.0 as int) {
                        State::Elligible
                    } else {
                        State::Neither
                    },
            ),
        }
    }

    pub open spec fn can_update_eligibility(&self, states: Seq<State>, world: &GameWorld) -> bool {
        &&& states.len() == world.tiles@.len()
        &&& world.tiles@.len() <= BOARD_TILE_LIMIT
        &&& self.restrictions matches Some(r) ==> (r.adjacent_to.0 as int) < BOARD_TILE_LIMIT
    }

    pub fn update_eligibility(&self, selection_status: &mut SelectionData, world: &GameWorld)
        requires
            self.can_update_eligibility(old(selection_status)@.states, world),
        ensures
            final(selection_status)@.states == self.eligibility(old(selection_status)@.states),
            final(selection_status)@.selections == old(selection_status)@.selections,
    {
        let ghost before = selection_status@;
        if self.restrictions.is_none() {
            selection_status.set_all_possible_elligible();
            return ;
        }
        selection_status.set_all_possible_inelligible();
        let adjacent_to = self.restrictions.unwrap().adjacent_to;
        let neighbours = valid_neighbours(adjacent_to, &world.tile_id_server());
        let ghost after_clear = selection_status@;
        let mut k: usize = 0;
        while k < neighbours.len()
            invariant
                0 <= k <= neighbours@.len(),
                selection_status@.selections == before.selections,
                selection_status@.states.len() == before.states.len(),
                before.states.len() == world.tiles@.len(),
                forall|m: int|
                    #![trigger neighbours@[m]]
                    0 <= m < neighbours@.len() ==> neighbours@[m].0 < world.tiles@.len()
                        && tiles_adjacent(neighbours@[m].0 as int, adjacent_to.0 as int),
                forall|i: int|
                    #![trigger selection_status@.states[i]]
                    0 <= i < before.states.len() ==> selection_status@.states[i] == if exists|
                        m: int,
                    |
                        #![trigger neighbours@[m]]
                        0 <= m < k && neighbours@[m].0 == i {
                        made_elligible(after_clear.states[i])
                    } else {
                        after_clear.states[i]
                    },
            decreases neighbours@.len() - k,
        {
            let ghost prev = selection_status@;
            selection_status.maybe_set_elligible(neighbours[k]);
            proof {
                assert forall|i: int|
                    #![trigger selection_status@.states[i]]
                    0 <= i < before.states.len() implies selection_status@.states[i] == if exists|
                        m: int,
                    |
                        #![trigger neighbours@[m]]
                        0 <= m < k + 1 && neighbours@[m].0 == i {
                        made_elligible(after_clear.states[i])
                    } else {
                        after_clear.states[i]
                    } by {
                    assert(prev.states[i] == if exists|m: int|
                        #![trigger neighbours@[m]]
                        0 <= m < k && neighbours@[m].0 == i {
                        made_elligible(after_clear.states[i])
                    } else {
                        after_clear.states[i]
                    });
                    if i == neighbours@[k as int].0 {
                        assert(exists|m: int|
                            #![trigger neighbours@[m]]
                            0 <= m < k + 1 && neighbours@[m].0 == i);
                    }
                }
            }
            k = k + 1;
        }
        proof {
            assert(selection_status@.states =~= self.eligibility(before.states)) by {
                assert forall|i: int|
                    0 <= i < before.states.len() implies #[trigger] selection_status@.states[i]
                    == self.eligibility(before.states)[i] by {
                    if tiles_adjacent(i, adjacent_to.0 as int) {
                        let m = choose|m: int|
                            #![trigger neighbours@[m]]
                            0 <= m < neighbours@.len() && neighbours@[m].0 == i;
                        assert(exists|m: int|
                            #![trigger neighbours@[m]]
                            0 <= m < k && neighbours@[m].0 == i);
                    }
                }
            }
        }
    }

    /// The world and log after converting the selected tiles: every
    /// selected tile becomes a tile of the target type, nothing else
    /// changes, and one conversion is logged per selection.
    pub open spec fn execution(&self, before: WorldView, selections: Seq<SelectedTile>) -> (
        WorldView,
        Seq<ActionEffect>,
    ) {
        (
            WorldView {
                tiles: converted_tiles(before.tiles, selections, self.target_type),
                ..before
            },
            selections.map_values(
                |s: SelectedTile|
                    ActionEffect::ConvertedTileType { tile: s.id, new_type: self.target_type },
            ),
        )
    }

    /// Converts each selected tile, logging one conversion per selection.
    pub fn execute(&self, validated_selections: &[SelectedTile], world: &mut GameWorld) -> (log:
        ChangeLog)
        requires
            selections_on_board(validated_selections@, old(world).tiles@.len() as int),
        ensures
            (final(world)@, log@) == self.execution(old(world)@, validated_selections@),
    {
        let mut log = ChangeLog::new();
        let ghost initial = world.tiles@;
        let mut k: usize = 0;
        while k < validated_selections.len()
            invariant
                0 <= k <= validated_selections@.len(),
                selections_on_board(validated_selections@, initial.len() as int),
                world.tiles@ == converted_tiles(
                    initial,
                    validated_selections@.take(k as int),
                    self.target_type,
                ),
                world.pieces@ == old(world).pieces@,
                world.players@ == old(world).players@,
                world.active_player == old(world).active_player,
                same_rules(world, old(world)),
                initial == old(world).tiles@,
                log@ == validated_selections@.take(k as int).map_values(
                    |s: SelectedTile|
                        ActionEffect::ConvertedTileType { tile: s.id, new_type: self.target_type },
                ),
            decreases validated_selections@.len() - k,
        {
            let tile = validated_selections[k];
            let ghost prev = world.tiles@;
            let market = world.tiles[tile.id.0 as usize].market;
            world.tiles.set(
                tile.id.0 as usize,
                LogicalTile { tile_type: self.target_type, market: market },
            );
            log.write(ActionEffect::ConvertedTileType { tile: tile.id, new_type: self.target_type });
            proof {
                let taken = validated_selections@.take(k as int + 1);
                assert(taken.drop_last() =~= validated_selections@.take(k as int));
                assert forall|i: int| 0 <= i < initial.len() implies #[trigger] world.tiles@[i]
                    == converted_tiles(initial, taken, self.target_type)[i] by {
                    if is_selected_tile(taken, i) && i != tile.id.0 {
                        let m = choose|m: int| 0 <= m < taken.len() && taken[m].id.0 == i;
                        assert(validated_selections@.take(k as int)[m] == taken[m]);
                    }
                    if is_selected_tile(validated_selections@.take(k as int), i) {
                        let m = choose|m: int|
                            0 <= m < k && validated_selections@.take(k as int)[m].id.0 == i;
                        assert(taken[m] == validated_selections@.take(k as int)[m]);
                    }
                    if i == tile.id.0 {
                        assert(taken[k as int].id.0 == i);
                    }
                }
                assert(world.tiles@ =~= converted_tiles(initial, taken, self.target_type));
                assert(log@ =~= taken.map_values(
                    |s: SelectedTile|
                        ActionEffect::ConvertedTileType { tile: s.id, new_type: self.target_type },
                ));
            }
            k = k + 1;
        }
        proof {
            assert(validated_selections@.take(k as int) =~= validated_selections@);
            assert(world@ =~= self.execution(old(world)@, validated_selections@).0);
        }
        log
    }
}

impl ForensicDescribe for ConvertTileTo {
    open spec fn description(&self) -> Seq<TextSnippetView> {
        seq![
            plain("Convert selected tiles into "@),
            link(LinkedGamplayElement::Tile(self.target_type)),
            plain(" tiles."@),
        ]
    }

    fn forensic_description(&self) -> (r: Vec<TextSnippet>)
        ensures
            views_of(r@) == self.description(),
    {
        let r = vec![
            TextSnippet::new("Convert selected tiles into "),
            TextSnippet::link(LinkedGamplayElement::Tile(self.target_type)),
            TextSnippet::new(" tiles."),
        ];
        proof {
            assert(views_of(r@) =~= self.description());
        }
        r
    }
}

} // verus!
