//! Moving a piece to another tile.
use vstd::prelude::*;

use crate::forensic_action_descriptions::{
    undescribed, ForensicDescribe, TextSnippetView,
};

use crate::pieces::{direction_step, LogicalPiece};
use crate::requests::{ActionEffect, ChangeLog};
use crate::tile_based_actions::change_tile_type::selections_on_board;
use crate::tile_based_actions::selection_mechanics::{
    made_elligible, made_inelligible, SelectedTile, SelectionData, State,
};
use crate::tile_based_actions::{
    make_listed_elligible, TileActionFunctionalityCapabilityConstants,
};
use crate::tile_mapping::{
    hex_distance, hex_of_id, id_of_hex, lemma_hex_round_trip, lemma_id_round_trip,
    lemma_inner_tile_distance, listed, within_steps, HexVector2d, TileId, TileIdServer, MAX_RING,
};
use crate::world::{
    lemma_piece_on_tile_valid, piece_on_tile, tile_occupied, GameWorld, WorldView,
    BOARD_TILE_LIMIT,
};

verus! {

/// Moves the piece standing on `piece_on_tile` to the selected tile.
#[derive(Debug, Clone, Copy, PartialEq, Eq)]
pub struct MovePiece {
    pub piece_on_tile: TileId,
    pub method: MovementMethod,
}

/// The tiles a piece may move to: vacant tiles that lie up to `depth`
/// steps away in any direction (`Adjacent`), or straight ahead of the
/// piece, in the direction it faces (`Forward`, which reaches at least one
/// step).
#[derive(Debug, Clone, Copy, PartialEq, Eq, Structural)]
pub enum MovementMethod {
    Adjacent { depth: u8 },
    Forward { depth: u8 },
}

impl TileActionFunctionalityCapabilityConstants for MovePiece {
    open spec fn spec_acceptable_selection_counts(&self) -> (usize, usize) {
        (1, 1)
    }

    fn acceptable_selection_counts(&self) -> (r: std::ops::Range<usize>) {
        1..1
    }
}

/// The number of steps a forward move reaches: `depth`, but at least one.
pub open spec fn forward_reach(depth: u8) -> int {
    if depth == 0 {
        1
    } else {
        depth as int
    }
}

/// The position `k` steps along `step` from `start`.
pub open spec fn steps_along(start: (int, int), step: (int, int), k: int) -> (int, int) {
    (start.0 + k * step.0, start.1 + k * step.1)
}

/// The position `v` lies between one and `count` steps along `step` from
/// `start`.
pub open spec fn ahead_of(start: (int, int), step: (int, int), v: (int, int), count: int) -> bool {
    exists|k: int| 1 <= k <= count && v == #[trigger] steps_along(start, step, k)
}

/// The tiles of the board (of `server`) that lie between one and `count`
/// steps along `step` from `start`.
fn tiles_ahead(start: HexVector2d, step: HexVector2d, count: u8, server: &TileIdServer) -> (r: Vec<
    TileId,
>)
    requires
        hex_distance(start@) <= MAX_RING,
        -1 <= step@.0 <= 1,
        -1 <= step@.1 <= 1,
        server.total_tiles_on_board <= BOARD_TILE_LIMIT,
    ensures
        forall|m: int|
            #![trigger r@[m]]
            0 <= m < r@.len() ==> r@[m].0 < server.total_tiles_on_board && ahead_of(
                start@,
                step@,
                hex_of_id(r@[m].0 as int),
                count as int,
            ),
        forall|i: int|
            0 <= i < server.total_tiles_on_board && ahead_of(
                start@,
                step@,
                hex_of_id(i),
                count as int,
            ) ==> listed(r@, i),
{
    let mut r: Vec<TileId> = Vec::new();
    let mut v = start;
    let mut k: u8 = 0;
    while k < count
        invariant
            0 <= k <= count,
            hex_distance(start@) <= MAX_RING,
            -1 <= step@.0 <= 1,
            -1 <= step@.1 <= 1,
            server.total_tiles_on_board <= BOARD_TILE_LIMIT,
            v@ == steps_along(start@, step@, k as int),
            forall|m: int|
                #![trigger r@[m]]
                0 <= m < r@.len() ==> r@[m].0 < server.total_tiles_on_board && ahead_of(
                    start@,
                    step@,
                    hex_of_id(r@[m].0 as int),
                    count as int,
                ),
            forall|i: int, j: int|
                #![trigger hex_of_id(i), steps_along(start@, step@, j)]
                0 <= i < server.total_tiles_on_board && 1 <= j <= k && hex_of_id(i) == steps_along(
                    start@,
                    step@,
                    j,
                ) ==> listed(r@, i),
        decreases count - k,
    {
        proof {
            assert(-(k as int) <= k * step@.0 <= k) by (nonlinear_arith)
                requires
                    -1 <= step@.0 <= 1,
                    k >= 0,
            ;
            assert(-(k as int) <= k * step@.1 <= k) by (nonlinear_arith)
                requires
                    -1 <= step@.1 <= 1,
                    k >= 0,
            ;
        }
        v = v.plus(step);
        k = k + 1;
        proof {
            assert(v@ == steps_along(start@, step@, k as int)) by (nonlinear_arith)
                requires
                    v@ == (start@.0 + (k - 1) * step@.0 + step@.0, start@.1 + (k - 1) * step@.1
                        + step@.1),
            ;
        }
        let ghost r_before = r@;
        if v.distance_from_origin() <= MAX_RING as u64 {
            match v.to_valid_tile_id(server) {
                Some(id) => {
                    r.push(id);
                    proof {
                        lemma_hex_round_trip(v@);
                        assert(r@[r@.len() - 1] == id);
                        assert(hex_of_id(id.0 as int) == v@);
                        assert(hex_of_id(id.0 as int) == steps_along(start@, step@, k as int));
                    }
                },
                None => {},
            }
        }
        proof {
            assert forall|i: int, j: int|
                #![trigger hex_of_id(i), steps_along(start@, step@, j)]
                0 <= i < server.total_tiles_on_board && 1 <= j <= k && hex_of_id(i) == steps_along(
                    start@,
                    step@,
                    j,
                ) implies listed(r@, i) by {
                if j < k {
                    assert(listed(r_before, i));
                    let m = choose|m: int|
                        #![trigger r_before[m]]
                        0 <= m < r_before.len() && r_before[m].0 == i;
                    assert(r@[m] == r_before[m]);
                } else {
                    lemma_inner_tile_distance(i);
                    lemma_id_round_trip(i);
                    assert(hex_of_id(i) == v@);
                    assert(id_of_hex(v@) == i);
                    assert(r@[r@.len() - 1].0 == i);
                }
            }
        }
    }
    proof {
        assert forall|i: int|
            0 <= i < server.total_tiles_on_board && ahead_of(
                start@,
                step@,
                hex_of_id(i),
                count as int,
            ) implies listed(r@, i) by {
            let j = choose|j: int|
                1 <= j <= count && hex_of_id(i) == #[trigger] steps_along(start@, step@, j);
            assert(hex_of_id(i) == steps_along(start@, step@, j));
        }
    }
    r
}

impl MovePiece {
    /// The piece can move to the tile with id `i`, vacant or not.
    pub open spec fn reaches(&self, world: WorldView, i: int) -> bool {
        let start = hex_of_id(self.piece_on_tile.0 as int);
        match self.method {
            MovementMethod::Adjacent { depth } => within_steps(start, hex_of_id(i), depth as int),
            MovementMethod::Forward { depth } => ahead_of(
                start,
                direction_step(
                    world.pieces[piece_on_tile(world.pieces, self.piece_on_tile)->Some_0].facing,
                ),
                hex_of_id(i),
                forward_reach(depth),
            ),
        }
    }

    /// The tiles the piece can reach can be worked out: the piece's tile
    /// lies within the coordinates the board handles and, for a forward
    /// move, a piece stands on it.
    pub open spec fn can_update_eligibility(&self, world: WorldView) -> bool {
        &&& (self.piece_on_tile.0 as int) < BOARD_TILE_LIMIT
        &&& self.method is Forward ==> piece_on_tile(world.pieces, self.piece_on_tile) is Some
    }

    /// Selected tiles stay selected; the vacant tiles the piece can reach
    /// are elligible, and no other tile is.
    pub open spec fn eligibility(&self, states: Seq<State>, world: WorldView) -> Seq<State> {
        Seq::new(
            states.len(),
            |i: int|
                if states[i] is Selected {
                    states[i]
                } else if self.reaches(world, i) && !tile_occupied(world.pieces, TileId(i as u32)) {
                    State::Elligible
                } else {
                    State::Neither
                },
        )
    }

    pub fn update_eligibility(&self, selection_status: &mut SelectionData, world: &GameWorld)
        requires
            world.wf(),
            self.can_update_eligibility(world@),
            old(selection_status)@.states.len() == world.tiles@.len(),
        ensures
            final(selection_status)@.states == self.eligibility(
                old(selection_status)@.states,
                world@,
            ),
            final(selection_status)@.selections == old(selection_status)@.selections,
    {
        let ghost before = selection_status@;
        proof {
            lemma_inner_tile_distance(self.piece_on_tile.0 as int);
        }
        let server = world.tile_id_server();
        let start = HexVector2d::from_tile_id(self.piece_on_tile);
        let candidate_tiles = match self.method {
            MovementMethod::Adjacent { depth } => start.adjacent_ids_with_depth(depth, &server),
            MovementMethod::Forward { depth } => {
                let k = match world.find_piece_on_tile(self.piece_on_tile) {
                    Some(k) => k,
                    None => {
                        assert(false);
                        return ;
                    },
                };
                let forward_direction = world.pieces[k].facing.to_hex_vector();
                let reach: u8 = if depth == 0 {
                    1
                } else {
                    depth
                };
                tiles_ahead(start, forward_direction, reach, &server)
            },
        };
        proof {
            assert forall|i: int|
                0 <= i < world.tiles@.len() implies listed(candidate_tiles@, i) == self.reaches(
                world@,
                i,
            ) by {
                if listed(candidate_tiles@, i) {
                    let m = choose|m: int|
                        #![trigger candidate_tiles@[m]]
                        0 <= m < candidate_tiles@.len() && candidate_tiles@[m].0 == i;
                }
            }
        }
        selection_status.set_all_possible_inelligible();
        let ghost cleared = selection_status@;
        make_listed_elligible(selection_status, &candidate_tiles, world, false);
        proof {
            assert forall|i: int| 0 <= i < before.states.len() implies selection_status@.states[i]
                == self.eligibility(before.states, world@)[i] by {
                assert(cleared.states[i] == made_inelligible(before.states[i]));
                if listed(candidate_tiles@, i) {
                    let m = choose|m: int|
                        #![trigger candidate_tiles@[m]]
                        0 <= m < candidate_tiles@.len() && candidate_tiles@[m].0 == i;
                }
            }
            assert(selection_status@.states =~= self.eligibility(before.states, world@));
        }
    }

    /// The piece can be moved: a piece stands on its tile and a tile is
    /// selected.
    pub open spec fn can_execute(&self, selections: Seq<SelectedTile>, world: WorldView) -> bool {
        &&& selections.len() >= 1
        &&& piece_on_tile(world.pieces, self.piece_on_tile) is Some
    }

    /// The world and log after the move: the piece now stands on the first
    /// selected tile, which is logged.
    pub open spec fn execution(&self, before: WorldView, selections: Seq<SelectedTile>) -> (
        WorldView,
        Seq<ActionEffect>,
    ) {
        let k = piece_on_tile(before.pieces, self.piece_on_tile)->Some_0;
        let to = selections[0].id;
        (
            WorldView {
                pieces: before.pieces.update(k, LogicalPiece { occupies: to, ..before.pieces[k] }),
                ..before
            },
            seq![ActionEffect::PieceMoved { from_tile: self.piece_on_tile, to_tile: to }],
        )
    }

    /// Moves the piece to the first selected tile, logging the move.
    pub fn execute(&self, validated_selections: &[SelectedTile], world: &mut GameWorld) -> (log:
        ChangeLog)
        requires
            self.can_execute(validated_selections@, old(world)@),
            selections_on_board(validated_selections@, old(world).tiles@.len() as int),
        ensures
            (final(world)@, log@) == self.execution(old(world)@, validated_selections@),
            old(world).wf() ==> final(world).wf(),
    {
        let ghost before = world@;
        let new_tile = validated_selections[0].id;
        let k = match world.find_piece_on_tile(self.piece_on_tile) {
            Some(k) => k,
            None => {
                assert(false);
                return ChangeLog::new();
            },
        };
        world.pieces[k].occupies = new_tile;
        let mut log = ChangeLog::new();
        log.write(ActionEffect::PieceMoved { from_tile: self.piece_on_tile, to_tile: new_tile });
        proof {
            assert(world@.pieces =~= self.execution(before, validated_selections@).0.pieces);
            assert(world@ =~= self.execution(before, validated_selections@).0);
            assert(log@ =~= self.execution(before, validated_selections@).1);
        }
        log
    }
}

/// The tiles a piece may move to. Selected tiles stay selected. Of the
/// others, a vacant tile is elligible exactly when, for a move in any
/// direction, it lies between one and `depth` steps from the piece, and for
/// a forward move, it lies one to `max(depth, 1)` steps straight ahead of
/// the piece in the direction it faces; every other tile is in the
/// `Neither` state.
pub proof fn lemma_move_targets(action: MovePiece, states: Seq<State>, world: WorldView)
    ensures
        action.eligibility(states, world).len() == states.len(),
        forall|i: int|
            0 <= i < states.len() && states[i] is Selected ==> #[trigger] action.eligibility(
                states,
                world,
            )[i] == states[i],
        forall|i: int|
            0 <= i < states.len() && !(states[i] is Selected) ==> {
                let from = hex_of_id(action.piece_on_tile.0 as int);
                let to = hex_of_id(i);
                let vacant = !exists|j: int|
                    0 <= j < world.pieces.len() && world.pieces[j].occupies == TileId(i as u32);
                let reachable = match action.method {
                    MovementMethod::Adjacent { depth } => 1 <= hex_distance(
                        (to.0 - from.0, to.1 - from.1),
                    ) <= depth,
                    MovementMethod::Forward { depth } => {
                        let step = direction_step(
                            world.pieces[piece_on_tile(
                                world.pieces,
                                action.piece_on_tile,
                            )->Some_0].facing,
                        );
                        exists|k: int|
                            1 <= k <= (if depth == 0 {
                                1
                            } else {
                                depth as int
                            }) && to == #[trigger] steps_along(from, step, k)
                    },
                };
                &&& (#[trigger] action.eligibility(states, world)[i] == State::Elligible <==> (
                reachable && vacant))
                &&& (action.eligibility(states, world)[i] == State::Elligible
                    || action.eligibility(states, world)[i] == State::Neither)
            },
{
    assert forall|i: int| 0 <= i < states.len() && !(states[i] is Selected) implies {
        let from = hex_of_id(action.piece_on_tile.0 as int);
        let to = hex_of_id(i);
        match action.method {
            MovementMethod::Adjacent { depth } => action.reaches(world, i) == (1 <= hex_distance(
                (to.0 - from.0, to.1 - from.1),
            ) <= depth),
            MovementMethod::Forward { depth } => {
                let step = direction_step(
                    world.pieces[piece_on_tile(world.pieces, action.piece_on_tile)->Some_0].facing,
                );
                action.reaches(world, i) == exists|k: int|
                    1 <= k <= (if depth == 0 {
                        1
                    } else {
                        depth as int
                    }) && to == #[trigger] steps_along(from, step, k)
            },
        }
    } by {}
}

impl ForensicDescribe for MovePiece {
    open spec fn description(&self) -> Seq<TextSnippetView> {
        undescribed()
    }
}

} // verus!
