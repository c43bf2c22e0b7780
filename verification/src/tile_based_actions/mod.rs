//! Actions that the player aims at tiles of the board: the player selects
//! tiles one by one, each selection updating which tiles may be selected
//! next, and then the action is executed on the selected tiles.
//!
//! Action executions rely on the elligibility step; they never assume that
//! all pieces have owners, and take the acting player from their own fields
//! rather than from the active player.
use vstd::prelude::*;

use crate::forensic_action_descriptions::{
    views_of, ForensicDescribe, TextSnippet, TextSnippetView,
};

pub mod change_tile_type;
pub mod damage_piece;
pub mod make_market_tile;
pub mod move_piece;
pub mod selection_mechanics;
pub mod spawn_pieces;

use crate::requests::{ActionEffect, ChangeLog};
use crate::tile_mapping::{listed, TileId};
use crate::world::{tile_occupied, GameWorld, WorldView, BOARD_TILE_LIMIT};
use change_tile_type::{selections_on_board, ConvertTileTo};
use damage_piece::PieceAttacksAdjacent;
use make_market_tile::MakeMarketTile;
use move_piece::MovePiece;
use selection_mechanics::{
    made_elligible, made_inelligible, selections_consistent, SelectedTile, SelectionData, State,
};
use spawn_pieces::SpawnPieces;

verus! {

/// The numbers of selected tiles an action can work with: at least the
/// first, and at most the second.
pub trait TileActionFunctionalityCapabilityConstants {
    spec fn spec_acceptable_selection_counts(&self) -> (usize, usize);

    fn acceptable_selection_counts(&self) -> (r: std::ops::Range<usize>)
        ensures
            (r.start, r.end) == self.spec_acceptable_selection_counts(),
    ;
}

/// What a tile action does.
#[derive(Debug, Clone, Copy, PartialEq, Eq)]
pub enum TileActionFunctionality {
    ConvertTileTo(ConvertTileTo),
    MakeMarketTile(MakeMarketTile),
    SpawnPieces(SpawnPieces),
    MovePiece(MovePiece),
    PieceAttacksAdjacent(PieceAttacksAdjacent),
}

impl TileActionFunctionalityCapabilityConstants for TileActionFunctionality {
    open spec fn spec_acceptable_selection_counts(&self) -> (usize, usize) {
        match self {
            TileActionFunctionality::ConvertTileTo(a) => a.spec_acceptable_selection_counts(),
            TileActionFunctionality::MakeMarketTile(a) => a.spec_acceptable_selection_counts(),
            TileActionFunctionality::SpawnPieces(a) => a.spec_acceptable_selection_counts(),
            TileActionFunctionality::MovePiece(a) => a.spec_acceptable_selection_counts(),
            TileActionFunctionality::PieceAttacksAdjacent(a) => a.spec_acceptable_selection_counts(),
        }
    }

    fn acceptable_selection_counts(&self) -> (r: std::ops::Range<usize>) {
        match self {
            TileActionFunctionality::ConvertTileTo(a) => a.acceptable_selection_counts(),
            TileActionFunctionality::MakeMarketTile(a) => a.acceptable_selection_counts(),
            TileActionFunctionality::SpawnPieces(a) => a.acceptable_selection_counts(),
            TileActionFunctionality::MovePiece(a) => a.acceptable_selection_counts(),
            TileActionFunctionality::PieceAttacksAdjacent(a) => a.acceptable_selection_counts(),
        }
    }
}

impl TileActionFunctionality {
    /// The selection states after this action marks which tiles may be
    /// selected.
    pub open spec fn eligibility(&self, states: Seq<State>, world: WorldView) -> Seq<State> {
        match self {
            TileActionFunctionality::ConvertTileTo(a) => a.eligibility(states),
            TileActionFunctionality::MakeMarketTile(a) => a.eligibility(states, world.tiles),
            TileActionFunctionality::SpawnPieces(a) => a.eligibility(states, world.pieces),
            TileActionFunctionality::MovePiece(a) => a.eligibility(states, world),
            TileActionFunctionality::PieceAttacksAdjacent(a) => a.eligibility(states, world),
        }
    }

    /// The action can mark the tiles of `world`.
    pub open spec fn can_update_eligibility(&self, world: WorldView) -> bool {
        &&& world.wf()
        &&& self matches TileActionFunctionality::ConvertTileTo(a) ==> (a.restrictions matches Some(
            r,
        ) ==> (r.adjacent_to.0 as int) < BOARD_TILE_LIMIT)
        &&& self matches TileActionFunctionality::MovePiece(a) ==> a.can_update_eligibility(world)
        &&& self matches TileActionFunctionality::PieceAttacksAdjacent(a)
            ==> a.can_update_eligibility()
    }

    pub fn update_eligibility(&self, selection_status: &mut SelectionData, world: &GameWorld)
        requires
            self.can_update_eligibility(world@),
            old(selection_status)@.states.len() == world.tiles@.len(),
        ensures
            final(selection_status)@.states == self.eligibility(
                old(selection_status)@.states,
                world@,
            ),
            final(selection_status)@.selections == old(selection_status)@.selections,
    {
        match self {
            TileActionFunctionality::ConvertTileTo(a) => a.update_eligibility(selection_status, world),
            TileActionFunctionality::MakeMarketTile(a) => a.update_eligibility(
                selection_status,
                world,
            ),
            TileActionFunctionality::SpawnPieces(a) => a.update_eligibility(selection_status, world),
            TileActionFunctionality::MovePiece(a) => a.update_eligibility(selection_status, world),
            TileActionFunctionality::PieceAttacksAdjacent(a) => a.update_eligibility(
                selection_status,
                world,
            ),
        }
    }

    /// The action can be executed on `selections` in `world`.
    pub open spec fn can_execute(&self, selections: Seq<SelectedTile>, world: WorldView) -> bool {
        &&& selections_on_board(selections, world.tiles.len() as int)
        &&& self matches TileActionFunctionality::SpawnPieces(a) ==> a.can_execute(selections, world)
        &&& self matches TileActionFunctionality::MovePiece(a) ==> a.can_execute(selections, world)
        &&& self matches TileActionFunctionality::PieceAttacksAdjacent(a) ==> a.can_execute(
            selections,
            world,
        )
    }

    /// The world and log after executing this action on `selections`.
    pub open spec fn execution(&self, before: WorldView, selections: Seq<SelectedTile>) -> (
        WorldView,
        Seq<ActionEffect>,
    ) {
        match self {
            TileActionFunctionality::ConvertTileTo(a) => a.execution(before, selections),
            TileActionFunctionality::MakeMarketTile(a) => a.execution(before, selections),
            TileActionFunctionality::SpawnPieces(a) => a.execution(before, selections),
            TileActionFunctionality::MovePiece(a) => a.execution(before, selections),
            TileActionFunctionality::PieceAttacksAdjacent(a) => a.execution(before, selections),
        }
    }

    pub fn execute(&self, validated_selections: &[SelectedTile], world: &mut GameWorld) -> (log:
        ChangeLog)
        requires
            self.can_execute(validated_selections@, old(world)@),
        ensures
            (final(world)@, log@) == self.execution(old(world)@, validated_selections@),
            old(world).wf() ==> final(world).wf(),
    {
        match self {
            TileActionFunctionality::ConvertTileTo(a) => a.execute(validated_selections, world),
            TileActionFunctionality::MakeMarketTile(a) => a.execute(validated_selections, world),
            TileActionFunctionality::SpawnPieces(a) => a.execute(validated_selections, world),
            TileActionFunctionality::MovePiece(a) => a.execute(validated_selections, world),
            TileActionFunctionality::PieceAttacksAdjacent(a) => a.execute(validated_selections, world),
        }
    }
}

/// Every listed tile falls back to the `Neither` state if it was elligible.
pub(crate) fn make_listed_inelligible(selection_status: &mut SelectionData, list: &Vec<TileId>)
    requires
        forall|m: int|
            #![trigger list@[m]]
            0 <= m < list@.len() ==> list@[m].0 < old(selection_status)@.states.len(),
    ensures
        final(selection_status)@.selections == old(selection_status)@.selections,
        final(selection_status)@.states.len() == old(selection_status)@.states.len(),
        forall|i: int|
            #![trigger final(selection_status)@.states[i]]
            0 <= i < old(selection_status)@.states.len() ==> final(selection_status)@.states[i]
                == if listed(list@, i) {
                made_inelligible(old(selection_status)@.states[i])
            } else {
                old(selection_status)@.states[i]
            },
{
    let ghost before = selection_status@;
    let mut m: usize = 0;
    while m < list.len()
        invariant
            0 <= m <= list@.len(),
            forall|l: int| #![trigger list@[l]] 0 <= l < list@.len() ==> list@[l].0 < before.states.len(),
            selection_status@.selections == before.selections,
            selection_status@.states.len() == before.states.len(),
            forall|i: int|
                #![trigger selection_status@.states[i]]
                0 <= i < before.states.len() ==> selection_status@.states[i] == if listed(
                    list@.take(m as int),
                    i,
                ) {
                    made_inelligible(before.states[i])
                } else {
                    before.states[i]
                },
        decreases list@.len() - m,
    {
        let ghost prev = selection_status@;
        selection_status.maybe_set_inelligible(list[m]);
        proof {
            let taken = list@.take(m as int + 1);
            assert forall|i: int|
                #![trigger selection_status@.states[i]]
                0 <= i < before.states.len() implies selection_status@.states[i] == if listed(
                    taken,
                    i,
                ) {
                    made_inelligible(before.states[i])
                } else {
                    before.states[i]
                } by {
                assert(prev.states[i] == if listed(list@.take(m as int), i) {
                    made_inelligible(before.states[i])
                } else {
                    before.states[i]
                });
                if listed(list@.take(m as int), i) {
                    let l = choose|l: int|
                        #![trigger list@.take(m as int)[l]]
                        0 <= l < m && list@.take(m as int)[l].0 == i;
                    assert(taken[l] == list@.take(m as int)[l]);
                }
                if listed(taken, i) && i != list@[m as int].0 {
                    let l = choose|l: int| #![trigger taken[l]] 0 <= l < m + 1 && taken[l].0 == i;
                    assert(list@.take(m as int)[l] == taken[l]);
                }
                if i == list@[m as int].0 {
                    assert(taken[m as int].0 == i);
                }
            }
        }
        m = m + 1;
    }
    proof {
        assert(list@.take(m as int) =~= list@);
    }
}

/// Every listed tile that is occupied by a piece (if `occupied`) or vacant
/// (if not) becomes elligible if it was in the `Neither` state.
pub(crate) fn make_listed_elligible(
    selection_status: &mut SelectionData,
    list: &Vec<TileId>,
    world: &GameWorld,
    occupied: bool,
)
    requires
        forall|m: int|
            #![trigger list@[m]]
            0 <= m < list@.len() ==> list@[m].0 < old(selection_status)@.states.len(),
    ensures
        final(selection_status)@.selections == old(selection_status)@.selections,
        final(selection_status)@.states.len() == old(selection_status)@.states.len(),
        forall|i: int|
            #![trigger final(selection_status)@.states[i]]
            0 <= i < old(selection_status)@.states.len() ==> final(selection_status)@.states[i]
                == if listed(list@, i) && tile_occupied(world.pieces@, TileId(i as u32)) == occupied {
                made_elligible(old(selection_status)@.states[i])
            } else {
                old(selection_status)@.states[i]
            },
{
    let ghost before = selection_status@;
    let mut m: usize = 0;
    while m < list.len()
        invariant
            0 <= m <= list@.len(),
            forall|l: int| #![trigger list@[l]] 0 <= l < list@.len() ==> list@[l].0 < before.states.len(),
            selection_status@.selections == before.selections,
            selection_status@.states.len() == before.states.len(),
            forall|i: int|
                #![trigger selection_status@.states[i]]
                0 <= i < before.states.len() ==> selection_status@.states[i] == if listed(
                    list@.take(m as int),
                    i,
                ) && tile_occupied(world.pieces@, TileId(i as u32)) == occupied {
                    made_elligible(before.states[i])
                } else {
                    before.states[i]
                },
        decreases list@.len() - m,
    {
        let ghost prev = selection_status@;
        let tile = list[m];
        if world.find_piece_on_tile(tile).is_some() == occupied {
            selection_status.maybe_set_elligible(tile);
        }
        proof {
            let taken = list@.take(m as int + 1);
            assert forall|i: int|
                #![trigger selection_status@.states[i]]
                0 <= i < before.states.len() implies selection_status@.states[i] == if listed(
                    taken,
                    i,
                ) && tile_occupied(world.pieces@, TileId(i as u32)) == occupied {
                    made_elligible(before.states[i])
                } else {
                    before.states[i]
                } by {
                assert(prev.states[i] == if listed(list@.take(m as int), i) && tile_occupied(
                    world.pieces@,
                    TileId(i as u32),
                ) == occupied {
                    made_elligible(before.states[i])
                } else {
                    before.states[i]
                });
                if listed(list@.take(m as int), i) {
                    let l = choose|l: int|
                        #![trigger list@.take(m as int)[l]]
                        0 <= l < m && list@.take(m as int)[l].0 == i;
                    assert(taken[l] == list@.take(m as int)[l]);
                }
                if listed(taken, i) && i != tile.0 {
                    let l = choose|l: int| #![trigger taken[l]] 0 <= l < m + 1 && taken[l].0 == i;
                    assert(list@.take(m as int)[l] == taken[l]);
                }
                if i == tile.0 {
                    assert(taken[m as int].0 == i);
                    assert(TileId(i as u32) == tile);
                }
            }
        }
        m = m + 1;
    }
    proof {
        assert(list@.take(m as int) =~= list@);
    }
}

impl ForensicDescribe for TileActionFunctionality {
    open spec fn description(&self) -> Seq<TextSnippetView> {
        match self {
            TileActionFunctionality::ConvertTileTo(a) => a.description(),
            TileActionFunctionality::MakeMarketTile(a) => a.description(),
            TileActionFunctionality::SpawnPieces(a) => a.description(),
            TileActionFunctionality::MovePiece(a) => a.description(),
            TileActionFunctionality::PieceAttacksAdjacent(a) => a.description(),
        }
    }

    fn forensic_description(&self) -> (r: Vec<TextSnippet>)
        ensures
            views_of(r@) == self.description(),
    {
        match self {
            TileActionFunctionality::ConvertTileTo(a) => a.forensic_description(),
            TileActionFunctionality::MakeMarketTile(a) => a.forensic_description(),
            TileActionFunctionality::SpawnPieces(a) => a.forensic_description(),
            TileActionFunctionality::MovePiece(a) => a.forensic_description(),
            TileActionFunctionality::PieceAttacksAdjacent(a) => a.forensic_description(),
        }
    }
}

/// Whether game design selection bounds `requested` fit within the counts
/// an action can work with.
pub fn selection_bounds_acceptable(
    acceptable: &std::ops::Range<usize>,
    requested: &std::ops::Range<usize>,
) -> (r: bool)
    ensures
        r == (acceptable.start <= requested.start && acceptable.end >= requested.end),
{
    acceptable.start <= requested.start && acceptable.end >= requested.end
}

/// An action together with the number of tiles that must be selected for
/// it: at least `tile_range_for_execution.start`; once
/// `tile_range_for_execution.end` are selected, no more can be.
#[derive(Debug)]
pub struct TileAction<A = TileActionFunctionality> {
    pub action_functionality: A,
    pub tile_range_for_execution: std::ops::Range<usize>,
}

/// Tried to create a tile action whose game design selection bounds did
/// not match the functionality.
#[derive(Debug, Clone, Copy, PartialEq, Eq, Structural)]
pub struct InvalidSelectionBounds;

impl<A: TileActionFunctionalityCapabilityConstants> TileAction<A> {
    /// The action with these game design selection bounds, if they fit
    /// within the counts the action can work with.
    pub fn new(
        action: A,
        game_design_selection_bounds: std::ops::Range<usize>,
    ) -> (r: Result<Self, InvalidSelectionBounds>)
        ensures
            r is Ok <==> (action.spec_acceptable_selection_counts().0
                <= game_design_selection_bounds.start
                && action.spec_acceptable_selection_counts().1 >= game_design_selection_bounds.end),
            r matches Ok(a) ==> a.action_functionality == action && a.tile_range_for_execution
                == game_design_selection_bounds,
            r is Err ==> r == Err::<Self, InvalidSelectionBounds>(InvalidSelectionBounds),
    {
        let acceptable = action.acceptable_selection_counts();
        if selection_bounds_acceptable(&acceptable, &game_design_selection_bounds) {
            Ok(
                Self {
                    action_functionality: action,
                    tile_range_for_execution: game_design_selection_bounds,
                },
            )
        } else {
            Err(InvalidSelectionBounds)
        }
    }
}

/// Tried to execute an action, but too few tiles were selected.
#[derive(Debug, Clone, Copy, PartialEq, Eq, Structural)]
pub struct SelectedTooFewTiles;

/// An action in the process of having its tiles selected.
#[derive(Debug)]
pub struct TileActionProcessCache {
    pub action: TileAction,
    pub selections: SelectionData,
}

/// The selection states after `hopeful` was selected: once the most tiles
/// the action allows are selected nothing else is elligible, and otherwise
/// the action marks the tiles anew.
pub open spec fn states_after_selection(
    action: TileAction,
    states: Seq<State>,
    selection_count: int,
    hopeful: SelectedTile,
    world: WorldView,
) -> Seq<State> {
    let selected = states.update(hopeful.id.0 as int, State::Selected(hopeful.direction));
    if selection_count + 1 >= action.tile_range_for_execution.end {
        selected.map_values(|s: State| made_inelligible(s))
    } else {
        action.action_functionality.eligibility(selected, world)
    }
}

/// No tile is ever selected twice, and every selected tile shows as
/// selected, with the direction chosen for it.
pub proof fn lemma_selected_tiles_distinct(cache: TileActionProcessCache, world: WorldView)
    requires
        cache.wf(world),
    ensures
        forall|k: int, l: int|
            0 <= k < l < cache.selections@.selections.len() ==> cache.selections@.selections[k].id
                != cache.selections@.selections[l].id,
        forall|k: int|
            0 <= k < cache.selections@.selections.len() ==> {
                let s = #[trigger] cache.selections@.selections[k];
                &&& s.id.0 < cache.selections@.states.len()
                &&& cache.selections@.states[s.id.0 as int] == State::Selected(s.direction)
            },
{
    reveal(selections_consistent);
    let v = cache.selections@;
    assert forall|k: int, l: int|
        0 <= k < l < v.selections.len() implies v.selections[k].id != v.selections[l].id by {
        assert(v.selections[k] == v.selections[k] && v.selections[l] == v.selections[l]);
    }
}

/// Once as many tiles are selected as the action allows, no tile is
/// elligible any more.
pub proof fn lemma_full_selection_closes(
    action: TileAction,
    states: Seq<State>,
    selection_count: int,
    hopeful: SelectedTile,
    world: WorldView,
)
    requires
        selection_count + 1 >= action.tile_range_for_execution.end,
        hopeful.id.0 < states.len(),
    ensures
        forall|i: int|
            0 <= i < states.len() ==> #[trigger] states_after_selection(
                action,
                states,
                selection_count,
                hopeful,
                world,
            )[i] != State::Elligible,
{
    let selected = states.update(hopeful.id.0 as int, State::Selected(hopeful.direction));
    assert forall|i: int| 0 <= i < states.len() implies #[trigger] states_after_selection(
        action,
        states,
        selection_count,
        hopeful,
        world,
    )[i] != State::Elligible by {
        assert(selected.map_values(|s: State| made_inelligible(s))[i] == made_inelligible(
            selected[i],
        ));
    }
}

impl TileActionProcessCache {
    /// The cache belongs to a board with the tiles of `world`.
    pub open spec fn wf(&self, world: WorldView) -> bool {
        &&& selections_consistent(self.selections@)
        &&& self.selections@.states.len() == world.tiles.len()
        &&& self.action.action_functionality.can_update_eligibility(world)
    }

    /// Starts selecting tiles for `action`: nothing is selected, and the
    /// action marks which tiles may be.
    pub fn initialize(action: TileAction, world: &GameWorld) -> (r: Self)
        requires
            action.action_functionality.can_update_eligibility(world@),
        ensures
            r.action == action,
            r.selections@.selections == Seq::<SelectedTile>::empty(),
            r.selections@.states == action.action_functionality.eligibility(
                Seq::new(world.tiles@.len() as nat, |i: int| State::Neither),
                world@,
            ),
            r.wf(world@),
    {
        let mut initial_selection_data = SelectionData::new(world.tile_id_server());
        let ghost fresh = initial_selection_data@;
        action.action_functionality.update_eligibility(&mut initial_selection_data, world);
        proof {
            selection_mechanics::lemma_consistent_keeps_selected(fresh, initial_selection_data@);
        }
        TileActionProcessCache { action, selections: initial_selection_data }
    }

    /// Selects `hopeful_tile` if it is elligible, then updates which tiles
    /// may be selected next.
    pub fn try_select_tile_and_update_elligibility(
        &mut self,
        hopeful_tile: SelectedTile,
        world: &GameWorld,
    ) -> (r: Result<(), selection_mechanics::InvalidSelection>)
        requires
            old(self).wf(world@),
            hopeful_tile.id.0 < world.tiles@.len(),
        ensures
            final(self).action == old(self).action,
            final(self).wf(world@),
            r is Ok <==> old(self).selections@.states[hopeful_tile.id.0 as int] == State::Elligible,
            r is Ok ==> {
                &&& final(self).selections@.selections == old(self).selections@.selections.push(
                    hopeful_tile,
                )
                &&& final(self).selections@.states == states_after_selection(
                    old(self).action,
                    old(self).selections@.states,
                    old(self).selections@.selections.len() as int,
                    hopeful_tile,
                    world@,
                )
            },
            r is Err ==> {
                &&& final(self).selections@ == old(self).selections@
                &&& r == Err::<(), selection_mechanics::InvalidSelection>(
                    selection_mechanics::InvalidSelection(hopeful_tile.id),
                )
            },
    {
        let ghost before = self.selections@;
        self.selections.try_select(hopeful_tile.id, hopeful_tile.direction)?;
        proof {
            assert(hopeful_tile == SelectedTile {
                id: hopeful_tile.id,
                direction: hopeful_tile.direction,
            });
        }
        let ghost selected = self.selections@;
        if self.selections.selection_count() >= self.action.tile_range_for_execution.end {
            self.selections.set_all_possible_inelligible();
        } else {
            self.action.action_functionality.update_eligibility(&mut self.selections, world);
            proof {
                selection_mechanics::lemma_consistent_keeps_selected(selected, self.selections@);
            }
        }
        Ok(())
    }

    pub fn view_selection_states(&self) -> (r: &[State])
        ensures
            r@ == self.selections@.states,
    {
        self.selections.get_states()
    }

    /// Executes the action on the selected tiles, if enough are selected.
    pub fn try_execute(&self, world: &mut GameWorld) -> (r: Result<ChangeLog, SelectedTooFewTiles>)
        requires
            self.wf(old(world)@),
            self.selections@.selections.len() >= self.action.tile_range_for_execution.start
                ==> self.action.action_functionality.can_execute(
                self.selections@.selections,
                old(world)@,
            ),
        ensures
            final(world).wf(),
            r is Ok <==> self.selections@.selections.len()
                >= self.action.tile_range_for_execution.start,
            r matches Ok(log) ==> (final(world)@, log@) == self.action.action_functionality.execution(
                old(world)@,
                self.selections@.selections,
            ),
            r is Err ==> *final(world) == *old(world) && r == Err::<ChangeLog, SelectedTooFewTiles>(
                SelectedTooFewTiles,
            ),
    {
        if self.selections.selection_count() >= self.action.tile_range_for_execution.start {
            Ok(
                self.action.action_functionality.execute(
                    self.selections.get_validated_ordered_selections(),
                    world,
                ),
            )
        } else {
            Err(SelectedTooFewTiles)
        }
    }

    /// What the action does, for the player to read.
    pub fn forensic_describe(&self) -> (r: Vec<TextSnippet>)
        ensures
            views_of(r@) == self.action.action_functionality.description(),
    {
        self.action.action_functionality.forensic_description()
    }

    pub fn amount_currently_selected(&self) -> (r: usize)
        ensures
            r == self.selections@.selections.len(),
    {
        self.selections.selection_count()
    }

    pub fn selection_bounds(&self) -> (r: &std::ops::Range<usize>)
        ensures
            *r == self.action.tile_range_for_execution,
    {
        &self.action.tile_range_for_execution
    }

    pub fn selected_tiles(&self) -> (r: &[SelectedTile])
        ensures
            r@ == self.selections@.selections,
    {
        self.selections.get_validated_ordered_selections()
    }

    pub fn get_tile_state(&self, tile: TileId) -> (r: &State)
        requires
            tile.0 < self.selections@.states.len(),
        ensures
            *r == self.selections@.states[tile.0 as int],
    {
        &self.selections.get_states()[tile.0 as usize]
    }
}

} // verus!
