//! Which tiles a player may select for an action, and which they have
//! selected so far.
use vstd::prelude::*;

use crate::pieces::FacingHexDirection;
use crate::tile_mapping::{TileId, TileIdServer};

verus! {

/// The selection state of one tile.
#[derive(Debug, Clone, Copy, PartialEq, Eq, Structural)]
pub enum State {
    Elligible,
    Selected(FacingHexDirection),
    Neither,
}

/// A tile chosen by the player, with the direction chosen for it.
#[derive(Debug, Clone, Copy, PartialEq, Eq, Structural)]
pub struct SelectedTile {
    pub id: TileId,
    pub direction: FacingHexDirection,
}

/// Tried to select a tile which was not elligible by the current cache
/// state.
#[derive(Debug, Clone, Copy, PartialEq, Eq, Structural)]
pub struct InvalidSelection(pub TileId);

/// The state of every tile of the board, and the tiles selected so far in
/// the order they were selected.
#[derive(Debug)]
pub struct SelectionData {
    all_tile_states: Vec<State>,
    ordered_selections: Vec<SelectedTile>,
}

pub struct SelectionDataView {
    pub states: Seq<State>,
    pub selections: Seq<SelectedTile>,
}

impl View for SelectionData {
    type V = SelectionDataView;

    closed spec fn view(&self) -> SelectionDataView {
        SelectionDataView { states: self.all_tile_states@, selections: self.ordered_selections@ }
    }
}

/// Every selection names a tile whose state records that selection, no
/// tile is selected twice, and every tile in the `Selected` state was
/// selected.
#[verifier::opaque]
pub open spec fn selections_consistent(v: SelectionDataView) -> bool {
    &&& forall|k: int|
        #![trigger v.selections[k]]
        0 <= k < v.selections.len() ==> {
            &&& v.selections[k].id.0 < v.states.len()
            &&& v.states[v.selections[k].id.0 as int] == State::Selected(v.selections[k].direction)
        }
    &&& forall|k: int, l: int|
        #![trigger v.selections[k], v.selections[l]]
        0 <= k < l < v.selections.len() ==> v.selections[k].id != v.selections[l].id
    &&& selected_states_recorded(v)
}

/// Every tile in the `Selected` state is named by a selection.
#[verifier::opaque]
pub open spec fn selected_states_recorded(v: SelectionDataView) -> bool {
    forall|i: int|
        #![trigger v.states[i]]
        0 <= i < v.states.len() && v.states[i] is Selected ==> exists|k: int|
            0 <= k < v.selections.len() && v.selections[k].id.0 == i
}

/// `set_all_possible_elligible` on one tile state.
pub open spec fn made_elligible(s: State) -> State {
    if s == State::Neither {
        State::Elligible
    } else {
        s
    }
}

/// `set_all_possible_inelligible` on one tile state.
pub open spec fn made_inelligible(s: State) -> State {
    if s == State::Elligible {
        State::Neither
    } else {
        s
    }
}

/// Changing only tiles that are not selected keeps the selections
/// consistent.
proof fn lemma_consistency_kept(before: SelectionDataView, after: SelectionDataView)
    requires
        selections_consistent(before),
        after.selections == before.selections,
        after.states.len() == before.states.len(),
        forall|i: int|
            #![trigger after.states[i]]
            0 <= i < after.states.len() && (after.states[i] is Selected
                || before.states[i] is Selected) ==> after.states[i] == before.states[i],
    ensures
        selections_consistent(after),
{
    reveal(selections_consistent);
    assert forall|k: int|
        #![trigger after.selections[k]]
        0 <= k < after.selections.len() implies after.states[after.selections[k].id.0 as int]
        == before.states[before.selections[k].id.0 as int] by {
        assert(before.selections[k] == after.selections[k]);
    }
    lemma_recorded_kept(before, after);
}

/// Changing only tiles that are not selected keeps every selected tile
/// recorded.
proof fn lemma_recorded_kept(before: SelectionDataView, after: SelectionDataView)
    requires
        selected_states_recorded(before),
        after.selections == before.selections,
        after.states.len() == before.states.len(),
        forall|i: int|
            #![trigger after.states[i]]
            0 <= i < after.states.len() && (after.states[i] is Selected
                || before.states[i] is Selected) ==> after.states[i] == before.states[i],
    ensures
        selected_states_recorded(after),
{
    reveal(selected_states_recorded);
    assert forall|i: int|
        #![trigger after.states[i]]
        0 <= i < after.states.len() && after.states[i] is Selected implies exists|k: int|
        0 <= k < after.selections.len() && after.selections[k].id.0 == i by {
        assert(before.states[i] is Selected);
        let k = choose|k: int| 0 <= k < before.selections.len() && before.selections[k].id.0 == i;
        assert(after.selections[k].id.0 == i);
    }
}

/// Selecting an elligible tile keeps the selections consistent.
proof fn lemma_consistency_after_select(
    before: SelectionDataView,
    after: SelectionDataView,
    tile: TileId,
    direction: FacingHexDirection,
)
    requires
        selections_consistent(before),
        tile.0 < before.states.len(),
        before.states[tile.0 as int] == State::Elligible,
        after.states == before.states.update(tile.0 as int, State::Selected(direction)),
        after.selections == before.selections.push(SelectedTile { id: tile, direction }),
    ensures
        selections_consistent(after),
{
    reveal(selections_consistent);
    let n = before.selections.len();
    assert forall|k: int|
        #![trigger after.selections[k]]
        0 <= k < after.selections.len() implies {
        &&& after.selections[k].id.0 < after.states.len()
        &&& after.states[after.selections[k].id.0 as int] == State::Selected(
            after.selections[k].direction,
        )
    } by {
        if k < n {
            assert(before.selections[k] == after.selections[k]);
        }
    }
    assert forall|k: int, l: int|
        #![trigger after.selections[k], after.selections[l]]
        0 <= k < l < after.selections.len() implies after.selections[k].id
        != after.selections[l].id by {
        assert(before.selections[k] == after.selections[k]);
        if l < n {
            assert(before.selections[l] == after.selections[l]);
        }
    }
    assert(selected_states_recorded(after)) by {
        reveal(selected_states_recorded);
        assert forall|i: int|
            #![trigger after.states[i]]
            0 <= i < after.states.len() && after.states[i] is Selected implies exists|k: int|
            0 <= k < after.selections.len() && after.selections[k].id.0 == i by {
            if i == tile.0 {
                assert(after.selections[n as int].id.0 == i);
            } else {
                assert(before.states[i] is Selected);
                let k = choose|k: int|
                    0 <= k < before.selections.len() && before.selections[k].id.0 == i;
                assert(after.selections[k] == before.selections[k]);
            }
        }
    }
}

/// Consistent selections stay consistent when the states change only on
/// tiles that are not selected.
pub proof fn lemma_consistent_keeps_selected(before: SelectionDataView, after: SelectionDataView)
    requires
        selections_consistent(before),
        after.selections == before.selections,
        after.states.len() == before.states.len(),
        forall|i: int|
            #![trigger after.states[i]]
            0 <= i < after.states.len() && (after.states[i] is Selected
                || before.states[i] is Selected) ==> after.states[i] == before.states[i],
    ensures
        selections_consistent(after),
{
    lemma_consistency_kept(before, after);
}

/// Consistent selections name tiles of the board.
pub proof fn lemma_consistent_on_board(v: SelectionDataView)
    requires
        selections_consistent(v),
    ensures
        forall|k: int|
            #![trigger v.selections[k]]
            0 <= k < v.selections.len() ==> v.selections[k].id.0 < v.states.len(),
{
    reveal(selections_consistent);
}

/// The ids of the tiles in the `Selected` state.
pub open spec fn selected_state_ids(states: Seq<State>) -> Set<int> {
    Set::new(|i: int| 0 <= i < states.len() && states[i] is Selected)
}

/// The ids of the selected tiles, in the order they were selected.
pub open spec fn selection_ids(selections: Seq<SelectedTile>) -> Seq<int> {
    selections.map_values(|s: SelectedTile| s.id.0 as int)
}

/// Consistent selections name distinct tiles, each in the `Selected`
/// state.
proof fn lemma_selection_ids_facts(v: SelectionDataView)
    requires
        selections_consistent(v),
    ensures
        selection_ids(v.selections).no_duplicates(),
        forall|i: int|
            selection_ids(v.selections).to_set().contains(i) ==> selected_state_ids(
                v.states,
            ).contains(i),
{
    reveal(selections_consistent);
    let ids = selection_ids(v.selections);
    assert forall|k: int, l: int| 0 <= k < ids.len() && 0 <= l < ids.len() && k != l implies ids[k]
        != ids[l] by {
        if k < l {
            assert(v.selections[k].id != v.selections[l].id);
        } else {
            assert(v.selections[l].id != v.selections[k].id);
        }
    }
    assert forall|i: int| ids.to_set().contains(i) implies selected_state_ids(v.states).contains(
        i,
    ) by {
        let k = choose|k: int| 0 <= k < ids.len() && ids[k] == i;
        assert(v.selections[k].id.0 == i);
    }
}

/// Every tile in the `Selected` state is one a selection names.
proof fn lemma_selected_states_named(v: SelectionDataView)
    requires
        selected_states_recorded(v),
    ensures
        forall|i: int|
            selected_state_ids(v.states).contains(i) ==> selection_ids(
                v.selections,
            ).to_set().contains(i),
{
    reveal(selected_states_recorded);
    let ids = selection_ids(v.selections);
    assert forall|i: int| selected_state_ids(v.states).contains(i) implies ids.to_set().contains(
        i,
    ) by {
        let k = choose|k: int| 0 <= k < v.selections.len() && v.selections[k].id.0 == i;
        assert(ids[k] == i);
    }
}

/// The tiles in the `Selected` state are exactly the tiles the selections
/// name, none named twice; so as many tiles show as selected as selections
/// are recorded.
pub proof fn lemma_selected_states_match_selections(v: SelectionDataView)
    requires
        selections_consistent(v),
    ensures
        selection_ids(v.selections).no_duplicates(),
        selected_state_ids(v.states) == selection_ids(v.selections).to_set(),
        selected_state_ids(v.states).len() == v.selections.len(),
{
    lemma_selection_ids_facts(v);
    assert(selected_states_recorded(v)) by {
        reveal(selections_consistent);
    }
    lemma_selected_states_named(v);
    let ids = selection_ids(v.selections);
    assert(selected_state_ids(v.states) =~= ids.to_set());
    ids.unique_seq_to_set();
}

/// A call that changes a selection process.
pub enum SelectionCall {
    TrySelect(TileId, FacingHexDirection),
    SetAllPossibleElligible,
    SetAllPossibleInelligible,
    MaybeSetElligible(TileId),
    MaybeSetInelligible(TileId),
}

/// What a call does to the recorded selections: a selection that succeeds
/// is appended, and nothing else changes them.
pub open spec fn selection_step(
    before: SelectionDataView,
    after: SelectionDataView,
    call: SelectionCall,
    succeeded: bool,
) -> bool {
    match call {
        SelectionCall::TrySelect(tile, direction) => if succeeded {
            after.selections == before.selections.push(SelectedTile { id: tile, direction })
        } else {
            after.selections == before.selections
        },
        _ => after.selections == before.selections,
    }
}

/// The tiles that the successful selections among `calls` select, in the
/// order of the calls.
pub open spec fn successful_selections(calls: Seq<(SelectionCall, bool)>) -> Seq<SelectedTile>
    decreases calls.len(),
{
    if calls.len() == 0 {
        Seq::empty()
    } else {
        let earlier = successful_selections(calls.drop_last());
        match calls.last() {
            (SelectionCall::TrySelect(tile, direction), true) => earlier.push(
                SelectedTile { id: tile, direction },
            ),
            _ => earlier,
        }
    }
}

/// Through any sequence of calls, the recorded selections grow by exactly
/// the successful selections, in the order they were made; starting from a
/// new process, which records none, they are exactly those selections.
pub proof fn lemma_selections_are_the_successful_ones(
    history: Seq<SelectionDataView>,
    calls: Seq<(SelectionCall, bool)>,
)
    requires
        history.len() == calls.len() + 1,
        forall|i: int|
            0 <= i < calls.len() ==> selection_step(
                #[trigger] history[i],
                history[i + 1],
                calls[i].0,
                calls[i].1,
            ),
    ensures
        history.last().selections == history[0].selections + successful_selections(calls),
    decreases calls.len(),
{
    if calls.len() == 0 {
        assert(history[0].selections + Seq::<SelectedTile>::empty() =~= history[0].selections);
    } else {
        let n = calls.len() - 1;
        let earlier = history.drop_last();
        assert forall|i: int| 0 <= i < calls.drop_last().len() implies selection_step(
            #[trigger] earlier[i],
            earlier[i + 1],
            calls.drop_last()[i].0,
            calls.drop_last()[i].1,
        ) by {
            assert(earlier[i] == history[i] && earlier[i + 1] == history[i + 1]);
        }
        lemma_selections_are_the_successful_ones(earlier, calls.drop_last());
        assert(selection_step(history[n], history[n + 1], calls[n].0, calls[n].1));
        assert(earlier.last() == history[n]);
        assert(history.last() == history[n + 1]);
        let earlier_picks = successful_selections(calls.drop_last());
        match calls.last() {
            (SelectionCall::TrySelect(tile, direction), true) => {
                let pick = SelectedTile { id: tile, direction };
                assert((history[0].selections + earlier_picks).push(pick) =~= history[0].selections
                    + earlier_picks.push(pick));
            },
            _ => {},
        }
    }
}

impl SelectionData {
    /// No tile selected, and every tile of the board in the `Neither` state.
    pub fn new(total_tile_count: TileIdServer) -> (r: Self)
        ensures
            r@.states == Seq::new(
                total_tile_count.total_tiles_on_board as nat,
                |i: int| State::Neither,
            ),
            r@.selections == Seq::<SelectedTile>::empty(),
            selections_consistent(r@),
    {
        let mut states: Vec<State> = Vec::new();
        let mut i: u32 = 0;
        while i < total_tile_count.total_tiles_on_board
            invariant
                i <= total_tile_count.total_tiles_on_board,
                states@ == Seq::new(i as nat, |j: int| State::Neither),
            decreases total_tile_count.total_tiles_on_board - i,
        {
            states.push(State::Neither);
            i = i + 1;
        }
        let r = SelectionData { all_tile_states: states, ordered_selections: Vec::new() };
        proof {
            reveal(selections_consistent);
            reveal(selected_states_recorded);
        }
        r
    }

    pub fn get_validated_ordered_selections(&self) -> (r: &[SelectedTile])
        ensures
            r@ == self@.selections,
    {
        self.ordered_selections.as_slice()
    }

    pub fn get_states(&self) -> (r: &[State])
        ensures
            r@ == self@.states,
    {
        self.all_tile_states.as_slice()
    }

    pub fn selection_count(&self) -> (r: usize)
        ensures
            r == self@.selections.len(),
    {
        self.ordered_selections.len()
    }

    /// Every tile in the `Neither` state becomes elligible.
    pub fn set_all_possible_elligible(&mut self)
        ensures
            final(self)@.states == old(self)@.states.map_values(|s: State| made_elligible(s)),
            final(self)@.selections == old(self)@.selections,
            selection_step(old(self)@, final(self)@, SelectionCall::SetAllPossibleElligible, true),
            selections_consistent(old(self)@) ==> selections_consistent(final(self)@),
    {
        let ghost before = self@;
        let mut i: usize = 0;
        while i < self.all_tile_states.len()
            invariant
                0 <= i <= self.all_tile_states@.len(),
                self.all_tile_states@.len() == before.states.len(),
                self.ordered_selections@ == before.selections,
                forall|j: int|
                    0 <= j < i ==> self.all_tile_states@[j] == made_elligible(before.states[j]),
                forall|j: int|
                    i <= j < self.all_tile_states@.len() ==> self.all_tile_states@[j]
                        == before.states[j],
            decreases self.all_tile_states@.len() - i,
        {
            if self.all_tile_states[i] == State::Neither {
                self.all_tile_states.set(i, State::Elligible);
            }
            i = i + 1;
        }
        assert(self@.states =~= before.states.map_values(|s: State| made_elligible(s)));
        proof {
            if selections_consistent(before) {
                lemma_consistency_kept(before, self@);
            }
        }
    }

    /// Every elligible tile falls back to the `Neither` state.
    pub fn set_all_possible_inelligible(&mut self)
        ensures
            final(self)@.states == old(self)@.states.map_values(|s: State| made_inelligible(s)),
            final(self)@.selections == old(self)@.selections,
            selection_step(old(self)@, final(self)@, SelectionCall::SetAllPossibleInelligible, true),
            selections_consistent(old(self)@) ==> selections_consistent(final(self)@),
    {
        let ghost before = self@;
        let mut i: usize = 0;
        while i < self.all_tile_states.len()
            invariant
                0 <= i <= self.all_tile_states@.len(),
                self.all_tile_states@.len() == before.states.len(),
                self.ordered_selections@ == before.selections,
                forall|j: int|
                    0 <= j < i ==> self.all_tile_states@[j] == made_inelligible(before.states[j]),
                forall|j: int|
                    i <= j < self.all_tile_states@.len() ==> self.all_tile_states@[j]
                        == before.states[j],
            decreases self.all_tile_states@.len() - i,
        {
            if self.all_tile_states[i] == State::Elligible {
                self.all_tile_states.set(i, State::Neither);
            }
            i = i + 1;
        }
        assert(self@.states =~= before.states.map_values(|s: State| made_inelligible(s)));
        proof {
            if selections_consistent(before) {
                lemma_consistency_kept(before, self@);
            }
        }
    }

    /// `tile` falls back to the `Neither` state if it was elligible.
    pub fn maybe_set_inelligible(&mut self, tile: TileId)
        requires
            tile.0 < old(self)@.states.len(),
        ensures
            final(self)@.states == old(self)@.states.update(
                tile.0 as int,
                made_inelligible(old(self)@.states[tile.0 as int]),
            ),
            final(self)@.selections == old(self)@.selections,
            selection_step(old(self)@, final(self)@, SelectionCall::MaybeSetInelligible(tile), true),
            selections_consistent(old(self)@) ==> selections_consistent(final(self)@),
    {
        let ghost before = self@;
        if self.all_tile_states[tile.0 as usize] == State::Elligible {
            self.all_tile_states.set(tile.0 as usize, State::Neither);
        }
        proof {
            if selections_consistent(before) {
                lemma_consistency_kept(before, self@);
            }
        }
    }

    /// `tile` becomes elligible if it was in the `Neither` state.
    pub fn maybe_set_elligible(&mut self, tile: TileId)
        requires
            tile.0 < old(self)@.states.len(),
        ensures
            final(self)@.states == old(self)@.states.update(
                tile.0 as int,
                made_elligible(old(self)@.states[tile.0 as int]),
            ),
            final(self)@.selections == old(self)@.selections,
            selection_step(old(self)@, final(self)@, SelectionCall::MaybeSetElligible(tile), true),
            selections_consistent(old(self)@) ==> selections_consistent(final(self)@),
    {
        let ghost before = self@;
        if self.all_tile_states[tile.0 as usize] == State::Neither {
            self.all_tile_states.set(tile.0 as usize, State::Elligible);
        }
        proof {
            if selections_consistent(before) {
                lemma_consistency_kept(before, self@);
            }
        }
    }

    /// Selects `tile`, facing `direction`, if it is elligible.
    pub fn try_select(&mut self, tile: TileId, direction: FacingHexDirection) -> (r: Result<
        (),
        InvalidSelection,
    >)
        requires
            tile.0 < old(self)@.states.len(),
        ensures
            r is Ok <==> old(self)@.states[tile.0 as int] == State::Elligible,
            r is Ok ==> {
                &&& final(self)@.states == old(self)@.states.update(
                    tile.0 as int,
                    State::Selected(direction),
                )
                &&& final(self)@.selections == old(self)@.selections.push(
                    SelectedTile { id: tile, direction },
                )
            },
            r is Err ==> {
                &&& final(self)@ == old(self)@
                &&& r == Err::<(), InvalidSelection>(InvalidSelection(tile))
            },
            selection_step(
                old(self)@,
                final(self)@,
                SelectionCall::TrySelect(tile, direction),
                r is Ok,
            ),
            selections_consistent(old(self)@) ==> selections_consistent(final(self)@),
    {
        let ghost before = self@;
        if self.all_tile_states[tile.0 as usize] == State::Elligible {
            self.all_tile_states.set(tile.0 as usize, State::Selected(direction));
            self.ordered_selections.push(SelectedTile { id: tile, direction });
            proof {
                if selections_consistent(before) {
                    lemma_consistency_after_select(before, self@, tile, direction);
                }
            }
            Ok(())
        } else {
            Err(InvalidSelection(tile))
        }
    }
}

} // verus!
