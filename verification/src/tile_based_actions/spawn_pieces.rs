//! Spawning new pieces on the board.
use vstd::prelude::*;

use crate::forensic_action_descriptions::{
    link, plain, views_of, ForensicDescribe, LinkedGamplayElement, TextSnippet, TextSnippetView,
};

use crate::pieces::{spawned_piece, ArchetypeId, LogicalPiece, LogicalPieceArchetype};
use crate::players::{LogicalPlayer, PlayerId, PlayerState};
use crate::requests::{ActionEffect, ChangeLog};
use crate::tile_based_actions::change_tile_type::selections_on_board;
use crate::tile_based_actions::selection_mechanics::{
    made_elligible, made_inelligible, SelectedTile, SelectionData, State,
};
use crate::tile_based_actions::{
    make_listed_elligible, make_listed_inelligible, TileActionFunctionalityCapabilityConstants,
};
use crate::tile_mapping::{listed, tiles_adjacent, valid_neighbours, TileId};
use crate::world::{
    piece_on_tile, piece_wf, same_rules, tile_occupied, GameWorld, PlayerView, WorldView,
    BOARD_TILE_LIMIT,
};

verus! {

/// Where a spawning action lets pieces be placed.
#[derive(Debug, Clone, Copy, PartialEq, Eq, Structural)]
pub enum SpawningRestrictions {
    Anywhere,
    StandardRestrictions,
    TowerSpawns,
}

/// Spawns a piece of `archetype`, owned by `owner`, on each selected tile.
#[derive(Debug, Clone, Copy, PartialEq, Eq)]
pub struct SpawnPieces {
    pub archetype: ArchetypeId,
    pub owner: PlayerId,
    pub restrictions: SpawningRestrictions,
}

impl TileActionFunctionalityCapabilityConstants for SpawnPieces {
    open spec fn spec_acceptable_selection_counts(&self) -> (usize, usize) {
        (0, usize::MAX)
    }

    fn acceptable_selection_counts(&self) -> (r: std::ops::Range<usize>) {
        0..usize::MAX
    }
}

/// `piece` is a spawn point owned by `owner` (if `friendly`) or owned by
/// another player (if not).
pub open spec fn spawn_point_of(piece: LogicalPiece, owner: PlayerId, friendly: bool) -> bool {
    &&& piece.is_spawn_point
    &&& piece.owner matches Some(o) && (if friendly {
        o == owner
    } else {
        o != owner
    })
}

/// The tile with id `i` lies next to a spawn point of `owner` (if
/// `friendly`) or of another player (if not).
pub open spec fn next_to_spawn_point(
    pieces: Seq<LogicalPiece>,
    i: int,
    owner: PlayerId,
    friendly: bool,
) -> bool {
    exists|k: int|
        #![trigger pieces[k]]
        0 <= k < pieces.len() && spawn_point_of(pieces[k], owner, friendly) && tiles_adjacent(
            i,
            pieces[k].occupies.0 as int,
        )
}

/// `players` with the state of `player` set to `state`, everything else
/// unchanged.
pub open spec fn with_player_state(
    before: Seq<LogicalPlayer>,
    after: Seq<LogicalPlayer>,
    player: int,
    state: PlayerState,
) -> bool {
    &&& after.len() == before.len()
    &&& forall|j: int| #![trigger after[j]] 0 <= j < after.len() && j != player ==> after[j] == before[j]
    &&& after[player].inventory == before[player].inventory
    &&& after[player].coins == before[player].coins
    &&& after[player].orders_remaining == before[player].orders_remaining
    &&& after[player].state == state
}

/// The tiles of a board with `tile_count` tiles next to a spawn point of
/// `owner` (if `friendly`) or of another player (if not).
fn spawn_point_neighbours(world: &GameWorld, owner: PlayerId, friendly: bool) -> (r: Vec<TileId>)
    requires
        world.wf(),
    ensures
        forall|m: int|
            #![trigger r@[m]]
            0 <= m < r@.len() ==> r@[m].0 < world.tiles@.len() && next_to_spawn_point(
                world.pieces@,
                r@[m].0 as int,
                owner,
                friendly,
            ),
        forall|i: int|
            0 <= i < world.tiles@.len() && next_to_spawn_point(world.pieces@, i, owner, friendly)
                ==> listed(r@, i),
{
    let server = world.tile_id_server();
    let mut r: Vec<TileId> = Vec::new();
    let mut k: usize = 0;
    while k < world.pieces.len()
        invariant
            world.wf(),
            0 <= k <= world.pieces@.len(),
            server.total_tiles_on_board == world.tiles@.len(),
            forall|m: int|
                #![trigger r@[m]]
                0 <= m < r@.len() ==> r@[m].0 < world.tiles@.len() && next_to_spawn_point(
                    world.pieces@,
                    r@[m].0 as int,
                    owner,
                    friendly,
                ),
            forall|i: int, p: int|
                #![trigger world.pieces@[p], tiles_adjacent(i, world.pieces@[p].occupies.0 as int)]
                0 <= i < world.tiles@.len() && 0 <= p < k && spawn_point_of(
                    world.pieces@[p],
                    owner,
                    friendly,
                ) && tiles_adjacent(i, world.pieces@[p].occupies.0 as int) ==> listed(r@, i),
        decreases world.pieces@.len() - k,
    {
        let piece = world.pieces[k];
        let matches = match piece.owner {
            Some(o) => piece.is_spawn_point && (if friendly {
                o == owner
            } else {
                o != owner
            }),
            None => false,
        };
        if matches {
            proof {
                assert(piece_wf(
                    world@.pieces[k as int],
                    world@.tiles.len() as int,
                    world@.players.len() as int,
                ));
            }
            let neighbours = valid_neighbours(piece.occupies, &server);
            let mut m: usize = 0;
            let ghost r_start = r@;
            while m < neighbours.len()
                invariant
                    0 <= m <= neighbours@.len(),
                    0 <= k < world.pieces@.len(),
                    piece == world.pieces@[k as int],
                    spawn_point_of(piece, owner, friendly),
                    r@.len() >= r_start.len(),
                    forall|l: int| #![trigger r_start[l]] 0 <= l < r_start.len() ==> r@[l] == r_start[l],
                    forall|l: int|
                        #![trigger neighbours@[l]]
                        0 <= l < neighbours@.len() ==> neighbours@[l].0 < world.tiles@.len()
                            && tiles_adjacent(neighbours@[l].0 as int, piece.occupies.0 as int),
                    forall|l: int|
                        #![trigger r@[l]]
                        0 <= l < r@.len() ==> r@[l].0 < world.tiles@.len() && next_to_spawn_point(
                            world.pieces@,
                            r@[l].0 as int,
                            owner,
                            friendly,
                        ),
                    forall|l: int| #![trigger neighbours@[l]] 0 <= l < m ==> listed(r@, neighbours@[l].0 as int),
                decreases neighbours@.len() - m,
            {
                let ghost r_prev = r@;
                r.push(neighbours[m]);
                proof {
                    assert(r@[r@.len() - 1] == neighbours@[m as int]);
                    assert forall|l: int| #![trigger neighbours@[l]] 0 <= l < m + 1 implies listed(
                        r@,
                        neighbours@[l].0 as int,
                    ) by {
                        if l < m {
                            let q = choose|q: int|
                                #![trigger r_prev[q]]
                                0 <= q < r_prev.len() && r_prev[q].0 == neighbours@[l].0;
                            assert(r@[q] == r_prev[q]);
                        }
                    }
                }
                m = m + 1;
            }
            proof {
                assert forall|i: int|
                    0 <= i < world.tiles@.len() && tiles_adjacent(
                        i,
                        piece.occupies.0 as int,
                    ) implies listed(r@, i) by {
                    let l = choose|l: int|
                        #![trigger neighbours@[l]]
                        0 <= l < neighbours@.len() && neighbours@[l].0 == i;
                }
            }
        }
        proof {
            assert forall|i: int, p: int|
                #![trigger world.pieces@[p], tiles_adjacent(i, world.pieces@[p].occupies.0 as int)]
                0 <= i < world.tiles@.len() && 0 <= p < k + 1 && spawn_point_of(
                    world.pieces@[p],
                    owner,
                    friendly,
                ) && tiles_adjacent(i, world.pieces@[p].occupies.0 as int) implies listed(r@, i) by {
                if p == k {
                } else {
                    assert(0 <= p < k);
                }
            }
        }
        k = k + 1;
    }
    r
}

impl SpawnPieces {
    /// Selected tiles stay selected. Of the other tiles, those on which no
    /// piece stands are elligible: anywhere; next to a spawn point of the
    /// owner and not next to another player's spawn point (standard
    /// restrictions); or anywhere not next to another player's spawn point
    /// (tower spawns). All other tiles are not.
    pub open spec fn eligibility(&self, states: Seq<State>, pieces: Seq<LogicalPiece>) -> Seq<
        State,
    > {
        Seq::new(
            states.len(),
            |i: int|
                if states[i] is Selected {
                    states[i]
                } else if !tile_occupied(pieces, TileId(i as u32)) && match self.restrictions {
                    SpawningRestrictions::Anywhere => true,
                    SpawningRestrictions::StandardRestrictions => next_to_spawn_point(
                        pieces,
                        i,
                        self.owner,
                        true,
                    ) && !next_to_spawn_point(pieces, i, self.owner, false),
                    SpawningRestrictions::TowerSpawns => !next_to_spawn_point(
                        pieces,
                        i,
                        self.owner,
                        false,
                    ),
                } {
                    State::Elligible
                } else {
                    State::Neither
                },
        )
    }

    pub fn update_eligibility(&self, selection_status: &mut SelectionData, world: &GameWorld)
        requires
            world.wf(),
            old(selection_status)@.states.len() == world.tiles@.len(),
        ensures
            final(selection_status)@.states == self.eligibility(
                old(selection_status)@.states,
                world.pieces@,
            ),
            final(selection_status)@.selections == old(selection_status)@.selections,
    {
        let ghost before = selection_status@;
        match self.restrictions {
            SpawningRestrictions::Anywhere => {
                let mut i: usize = 0;
                while i < world.tiles.len()
                    invariant
                        0 <= i <= world.tiles@.len(),
                        world.wf(),
                        before.states.len() == world.tiles@.len(),
                        selection_status@.selections == before.selections,
                        selection_status@.states.len() == before.states.len(),
                        forall|j: int|
                            #![trigger selection_status@.states[j]]
                            0 <= j < before.states.len() ==> selection_status@.states[j] == if j
                                < i {
                                if tile_occupied(world.pieces@, TileId(j as u32)) {
                                    made_inelligible(before.states[j])
                                } else {
                                    made_elligible(before.states[j])
                                }
                            } else {
                                before.states[j]
                            },
                    decreases world.tiles@.len() - i,
                {
                    let tile = TileId(i as u32);
                    if world.find_piece_on_tile(tile).is_some() {
                        selection_status.maybe_set_inelligible(tile);
                    } else {
                        selection_status.maybe_set_elligible(tile);
                    }
                    i = i + 1;
                }
            },
            SpawningRestrictions::StandardRestrictions => {
                selection_status.set_all_possible_inelligible();
                let friendly = spawn_point_neighbours(world, self.owner, true);
                let enemy = spawn_point_neighbours(world, self.owner, false);
                let ghost cleared = selection_status@;
                make_listed_elligible(selection_status, &friendly, world, false);
                let ghost opened = selection_status@;
                make_listed_inelligible(selection_status, &enemy);
                proof {
                    assert forall|i: int|
                        0 <= i < before.states.len() implies #[trigger] selection_status@.states[i]
                        == self.eligibility(before.states, world.pieces@)[i] by {
                        assert(cleared.states[i] == made_inelligible(before.states[i]));
                        assert(opened.states[i] == if listed(friendly@, i) && !tile_occupied(
                            world.pieces@,
                            TileId(i as u32),
                        ) {
                            made_elligible(cleared.states[i])
                        } else {
                            cleared.states[i]
                        });
                        if listed(friendly@, i) {
                            let m = choose|m: int|
                                #![trigger friendly@[m]]
                                0 <= m < friendly@.len() && friendly@[m].0 == i;
                        }
                        if listed(enemy@, i) {
                            let m = choose|m: int|
                                #![trigger enemy@[m]]
                                0 <= m < enemy@.len() && enemy@[m].0 == i;
                        }
                    }
                }
            },
            SpawningRestrictions::TowerSpawns => {
                selection_status.set_all_possible_elligible();
                let ghost opened = selection_status@;
                let mut k: usize = 0;
                while k < world.pieces.len()
                    invariant
                        0 <= k <= world.pieces@.len(),
                        world.wf(),
                        before.states.len() == world.tiles@.len(),
                        opened.states.len() == before.states.len(),
                        selection_status@.selections == before.selections,
                        selection_status@.states.len() == before.states.len(),
                        forall|j: int|
                            #![trigger selection_status@.states[j]]
                            0 <= j < before.states.len() ==> selection_status@.states[j] == if exists|
                                p: int,
                            |
                                #![trigger world.pieces@[p]]
                                0 <= p < k && world.pieces@[p].occupies.0 == j {
                                made_inelligible(opened.states[j])
                            } else {
                                opened.states[j]
                            },
                    decreases world.pieces@.len() - k,
                {
                    proof {
                        assert(piece_wf(
                            world@.pieces[k as int],
                            world@.tiles.len() as int,
                            world@.players.len() as int,
                        ));
                    }
                    let ghost prev = selection_status@;
                    selection_status.maybe_set_inelligible(world.pieces[k].occupies);
                    proof {
                        assert forall|j: int|
                            #![trigger selection_status@.states[j]]
                            0 <= j < before.states.len() implies selection_status@.states[j]
                            == if exists|p: int|
                                #![trigger world.pieces@[p]]
                                0 <= p < k + 1 && world.pieces@[p].occupies.0 == j {
                                made_inelligible(opened.states[j])
                            } else {
                                opened.states[j]
                            } by {
                            assert(prev.states[j] == if exists|p: int|
                                #![trigger world.pieces@[p]]
                                0 <= p < k && world.pieces@[p].occupies.0 == j {
                                made_inelligible(opened.states[j])
                            } else {
                                opened.states[j]
                            });
                            if j == world.pieces@[k as int].occupies.0 {
                                assert(exists|p: int|
                                    #![trigger world.pieces@[p]]
                                    0 <= p < k + 1 && world.pieces@[p].occupies.0 == j);
                            }
                        }
                    }
                    k = k + 1;
                }
                let ghost occupied_cleared = selection_status@;
                let enemy = spawn_point_neighbours(world, self.owner, false);
                make_listed_inelligible(selection_status, &enemy);
                proof {
                    assert forall|i: int|
                        0 <= i < before.states.len() implies #[trigger] selection_status@.states[i]
                        == self.eligibility(before.states, world.pieces@)[i] by {
                        assert(opened.states[i] == made_elligible(before.states[i]));
                        assert(occupied_cleared.states[i] == if exists|p: int|
                            #![trigger world.pieces@[p]]
                            0 <= p < k && world.pieces@[p].occupies.0 == i {
                            made_inelligible(opened.states[i])
                        } else {
                            opened.states[i]
                        });
                        if tile_occupied(world.pieces@, TileId(i as u32)) {
                            let p = choose|p: int|
                                0 <= p < world.pieces@.len() && world.pieces@[p].occupies == TileId(
                                    i as u32,
                                );
                            assert(world.pieces@[p].occupies.0 == i);
                        }
                        if exists|p: int|
                            #![trigger world.pieces@[p]]
                            0 <= p < k && world.pieces@[p].occupies.0 == i {
                            let p = choose|p: int|
                                #![trigger world.pieces@[p]]
                                0 <= p < k && world.pieces@[p].occupies.0 == i;
                            assert(world.pieces@[p].occupies == TileId(i as u32));
                        }
                        if listed(enemy@, i) {
                            let m = choose|m: int|
                                #![trigger enemy@[m]]
                                0 <= m < enemy@.len() && enemy@[m].0 == i;
                        }
                    }
                }
            },
        }
        proof {
            assert(selection_status@.states =~= self.eligibility(before.states, world.pieces@));
        }
    }

    /// Whether the pieces can be spawned: the archetype and the owner exist,
    /// and the selections name tiles of the board.
    pub open spec fn can_execute(&self, selections: Seq<SelectedTile>, world: WorldView) -> bool {
        &&& (self.archetype.0 as int) < world.archetypes.len()
        &&& (self.owner.0 as int) < world.players.len()
        &&& selections_on_board(selections, world.tiles.len() as int)
    }

    /// The pieces spawned on the selected tiles, in order of selection.
    pub open spec fn spawned(
        &self,
        selections: Seq<SelectedTile>,
        archetype: LogicalPieceArchetype,
    ) -> Seq<LogicalPiece> {
        selections.map_values(
            |s: SelectedTile| spawned_piece(self.archetype, archetype, self.owner, s.id, s.direction),
        )
    }

    /// The world and log after spawning: one new piece per selection at the
    /// end of the pieces, the owner alive if the archetype is a win
    /// condition and something was spawned, nothing else changed, and one
    /// spawn logged per selection.
    pub open spec fn execution(&self, before: WorldView, selections: Seq<SelectedTile>) -> (
        WorldView,
        Seq<ActionEffect>,
    ) {
        let archetype = before.archetypes[self.archetype.0 as int];
        let owner = before.players[self.owner.0 as int];
        let state = if archetype.is_win_condition && selections.len() > 0 {
            PlayerState::Alive
        } else {
            owner.state
        };
        (
            WorldView {
                pieces: before.pieces + self.spawned(selections, archetype),
                players: before.players.update(
                    self.owner.0 as int,
                    PlayerView { state: state, ..owner },
                ),
                ..before
            },
            selections.map_values(
                |s: SelectedTile|
                    ActionEffect::SpawnedPiece {
                        tile: s.id,
                        player: self.owner,
                        archetype: self.archetype,
                        facing_direction: s.direction,
                    },
            ),
        )
    }

    /// Spawns one piece per selection. If the archetype is a win condition,
    /// the owner becomes alive.
    pub fn execute(&self, validated_selections: &[SelectedTile], world: &mut GameWorld) -> (log:
        ChangeLog)
        requires
            self.can_execute(validated_selections@, old(world)@),
        ensures
            (final(world)@, log@) == self.execution(old(world)@, validated_selections@),
    {
        let blueprint = *world.archetypes.get_archetype(self.archetype).unwrap();
        let owner = self.owner.0 as usize;
        let mut log = ChangeLog::new();
        let ghost initial = world.pieces@;
        let ghost players_before = world.players@;
        let mut k: usize = 0;
        while k < validated_selections.len()
            invariant
                0 <= k <= validated_selections@.len(),
                owner == self.owner.0,
                owner < world.players@.len(),
                blueprint == old(world).archetypes.0@[self.archetype.0 as int],
                players_before == old(world).players@,
                initial == old(world).pieces@,
                world.tiles@ == old(world).tiles@,
                world.pieces@ == initial + self.spawned(
                    validated_selections@.take(k as int),
                    blueprint,
                ),
                with_player_state(
                    players_before,
                    world.players@,
                    owner as int,
                    if blueprint.is_win_condition && k > 0 {
                        PlayerState::Alive
                    } else {
                        players_before[owner as int].state
                    },
                ),
                world.active_player == old(world).active_player,
                same_rules(world, old(world)),
                log@ == validated_selections@.take(k as int).map_values(
                    |s: SelectedTile|
                        ActionEffect::SpawnedPiece {
                            tile: s.id,
                            player: self.owner,
                            archetype: self.archetype,
                            facing_direction: s.direction,
                        },
                ),
            decreases validated_selections@.len() - k,
        {
            let selection = validated_selections[k];
            let piece = LogicalPiece::spawn(
                self.archetype,
                &blueprint,
                self.owner,
                selection.id,
                selection.direction,
            );
            world.pieces.push(piece);
            if blueprint.is_win_condition {
                world.players[owner].state = PlayerState::Alive;
            }
            log.write(
                ActionEffect::SpawnedPiece {
                    tile: selection.id,
                    player: self.owner,
                    archetype: self.archetype,
                    facing_direction: selection.direction,
                },
            );
            proof {
                let taken = validated_selections@.take(k as int + 1);
                assert(taken.drop_last() =~= validated_selections@.take(k as int));
                assert(world.pieces@ =~= initial + self.spawned(taken, blueprint));
                assert(log@ =~= taken.map_values(
                    |s: SelectedTile|
                        ActionEffect::SpawnedPiece {
                            tile: s.id,
                            player: self.owner,
                            archetype: self.archetype,
                            facing_direction: s.direction,
                        },
                ));
            }
            k = k + 1;
        }
        proof {
            assert(validated_selections@.take(k as int) =~= validated_selections@);
            let expected = self.execution(old(world)@, validated_selections@).0;
            assert forall|j: int| 0 <= j < world.players@.len() implies #[trigger] world@.players[j]
                == expected.players[j] by {
                if j != owner {
                    assert(world.players@[j] == players_before[j]);
                }
            }
            assert(world@.players =~= expected.players);
            assert(world@ =~= expected);
        }
        log
    }
}

/// Spawning adds one piece per selection after the pieces already there,
/// in the order of the selections, and leaves those pieces as they were.
/// Each new piece stands on its selected tile, faces the direction chosen
/// for it, belongs to the action's owner and carries the orders, health,
/// orders per round and value of the archetype.
pub proof fn lemma_spawning_adds_archetype_pieces(
    action: SpawnPieces,
    before: WorldView,
    selections: Seq<SelectedTile>,
)
    ensures
        ({
            let after = action.execution(before, selections).0;
            let archetype = before.archetypes[action.archetype.0 as int];
            &&& after.pieces.len() == before.pieces.len() + selections.len()
            &&& forall|k: int| 0 <= k < before.pieces.len() ==> #[trigger] after.pieces[k] == before.pieces[k]
            &&& forall|i: int|
                0 <= i < selections.len() ==> {
                    let piece = #[trigger] after.pieces[before.pieces.len() + i];
                    &&& piece.occupies == selections[i].id
                    &&& piece.facing == selections[i].direction
                    &&& piece.owner == Some(action.owner)
                    &&& piece.archetype == action.archetype
                    &&& piece.orders == archetype.orders
                    &&& piece.health.current == archetype.max_health
                    &&& piece.health.max == archetype.max_health
                    &&& piece.orders_receivable.per_round == archetype.starting_orders_per_round
                    &&& piece.monetary_value.0 == archetype.default_monetary_value
                    &&& piece.is_win_condition == archetype.is_win_condition
                    &&& piece.is_spawn_point == archetype.is_spawnpoint
                    &&& piece.gives_extra_player_order == archetype.gives_extra_player_order
                }
        }),
{
    let after = action.execution(before, selections).0;
    let archetype = before.archetypes[action.archetype.0 as int];
    let new_pieces = action.spawned(selections, archetype);
    assert forall|i: int| 0 <= i < selections.len() implies #[trigger] after.pieces[before.pieces.len()
        + i] == new_pieces[i] by {}
    assert forall|k: int| 0 <= k < before.pieces.len() implies #[trigger] after.pieces[k]
        == before.pieces[k] by {}
}

impl ForensicDescribe for SpawnPieces {
    open spec fn description(&self) -> Seq<TextSnippetView> {
        let common = seq![
            plain("Spawn "@),
            link(LinkedGamplayElement::Piece(self.archetype)),
            plain(" on selected tiles."@),
            link(LinkedGamplayElement::Player(self.owner)),
            plain(" will own and command this piece."@),
        ];
        match self.restrictions {
            SpawningRestrictions::Anywhere => common,
            SpawningRestrictions::StandardRestrictions => common.push(
                plain(
                    "Piece must be spawned next to a friendly spawnpoint and away from an enemy spawnpoint."@,
                ),
            ),
            SpawningRestrictions::TowerSpawns => common.push(
                plain("Piece can be spawned anywhere, except next to enemy spawnpoints."@),
            ),
        }
    }

    fn forensic_description(&self) -> (r: Vec<TextSnippet>)
        ensures
            views_of(r@) == self.description(),
    {
        let mut text_fragments = vec![
            TextSnippet::new("Spawn "),
            TextSnippet::link(LinkedGamplayElement::Piece(self.archetype)),
            TextSnippet::new(" on selected tiles."),
            TextSnippet::link(LinkedGamplayElement::Player(self.owner)),
            TextSnippet::new(" will own and command this piece."),
        ];
        match self.restrictions {
            SpawningRestrictions::Anywhere => {},
            SpawningRestrictions::StandardRestrictions => text_fragments.push(
                TextSnippet::new(
                    "Piece must be spawned next to a friendly spawnpoint and away from an enemy spawnpoint.",
                ),
            ),
            SpawningRestrictions::TowerSpawns => text_fragments.push(
                TextSnippet::new("Piece can be spawned anywhere, except next to enemy spawnpoints."),
            ),
        }
        proof {
            assert(views_of(text_fragments@) =~= self.description());
        }
        text_fragments
    }
}

} // verus!
