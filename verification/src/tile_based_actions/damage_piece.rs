//! A piece attacking the pieces around it.
use vstd::prelude::*;

use crate::forensic_action_descriptions::{
    colored, decimal, decimal_text, plain, views_of, ColorIndicators, ForensicDescribe, TextSnippet,
    TextSnippetView,
};

use crate::pieces::{damage_and_maybe_kill_piece, damage_fits, damaged};
use crate::players::PlayerId;
use crate::requests::{ActionEffect, ChangeLog};
use crate::tile_based_actions::selection_mechanics::{
    made_inelligible, SelectedTile, SelectionData, State,
};
use crate::tile_based_actions::{
    make_listed_elligible, TileActionFunctionalityCapabilityConstants,
};
use crate::tile_mapping::{
    hex_of_id, lemma_inner_tile_distance, listed, within_steps, HexVector2d, TileId,
};
use crate::world::{tile_occupied, GameWorld, WorldView, BOARD_TILE_LIMIT};

verus! {

/// The piece on `attacker_occupies_tile` deals `damage` to the piece on
/// each selected tile; the tiles it can aim at lie up to `adjacency_depth`
/// steps away.
#[derive(Debug, Clone, Copy, PartialEq, Eq)]
pub struct PieceAttacksAdjacent {
    pub attacker_occupies_tile: TileId,
    pub damage: u32,
    pub adjacency_depth: u8,
}

impl TileActionFunctionalityCapabilityConstants for PieceAttacksAdjacent {
    open spec fn spec_acceptable_selection_counts(&self) -> (usize, usize) {
        (1, usize::MAX)
    }

    fn acceptable_selection_counts(&self) -> (r: std::ops::Range<usize>) {
        1..usize::MAX
    }
}

/// The world and log after `damage` is dealt, by `attacker`, to the piece
/// on each of `targets` in turn.
pub open spec fn attacked(
    world: WorldView,
    damage: u32,
    targets: Seq<SelectedTile>,
    attacker: Option<PlayerId>,
) -> (WorldView, Seq<ActionEffect>)
    decreases targets.len(),
{
    if targets.len() == 0 {
        (world, Seq::empty())
    } else {
        let (w, log) = attacked(world, damage, targets.drop_last(), attacker);
        let (after, more) = damaged(w, damage, targets.last().id, attacker);
        (after, log + more)
    }
}

/// Each of the blows stays within the limits of the game's numbers.
pub open spec fn attack_fits(
    world: WorldView,
    damage: u32,
    targets: Seq<SelectedTile>,
    attacker: Option<PlayerId>,
) -> bool
    decreases targets.len(),
{
    targets.len() == 0 || (attack_fits(world, damage, targets.drop_last(), attacker) && damage_fits(
        attacked(world, damage, targets.drop_last(), attacker).0,
        damage,
        targets.last().id,
        attacker,
    ))
}

/// An attack that fits fits on every first part of its targets.
proof fn lemma_attack_fits_prefix(
    world: WorldView,
    damage: u32,
    targets: Seq<SelectedTile>,
    attacker: Option<PlayerId>,
    k: int,
)
    requires
        attack_fits(world, damage, targets, attacker),
        0 <= k <= targets.len(),
    ensures
        attack_fits(world, damage, targets.take(k), attacker),
    decreases targets.len(),
{
    if k == targets.len() {
        assert(targets.take(k) =~= targets);
    } else {
        lemma_attack_fits_prefix(world, damage, targets.drop_last(), attacker, k);
        assert(targets.drop_last().take(k) =~= targets.take(k));
    }
}

impl PieceAttacksAdjacent {
    /// The tiles the attacker can aim at can be worked out: its tile lies
    /// within the coordinates the board handles.
    pub open spec fn can_update_eligibility(&self) -> bool {
        (self.attacker_occupies_tile.0 as int) < BOARD_TILE_LIMIT
    }

    /// Selected tiles stay selected; the tiles with a piece on them up to
    /// `adjacency_depth` steps from the attacker are elligible, and no other
    /// tile is.
    pub open spec fn eligibility(&self, states: Seq<State>, world: WorldView) -> Seq<State> {
        Seq::new(
            states.len(),
            |i: int|
                if states[i] is Selected {
                    states[i]
                } else if within_steps(
                    hex_of_id(self.attacker_occupies_tile.0 as int),
                    hex_of_id(i),
                    self.adjacency_depth as int,
                ) && tile_occupied(world.pieces, TileId(i as u32)) {
                    State::Elligible
                } else {
                    State::Neither
                },
        )
    }

    pub fn update_eligibility(&self, selection_status: &mut SelectionData, world: &GameWorld)
        requires
            world.wf(),
            self.can_update_eligibility(),
            old(selection_status)@.states.len() == world.tiles@.len(),
        ensures
            final(selection_status)@.states == self.eligibility(
                old(selection_status)@.states,
                world@,
            ),
            final(selection_status)@.selections == old(selection_status)@.selections,
    {
        let ghost before = selection_status@;
        selection_status.set_all_possible_inelligible();
        let ghost cleared = selection_status@;
        proof {
            lemma_inner_tile_distance(self.attacker_occupies_tile.0 as int);
        }
        let server = world.tile_id_server();
        let in_reach = HexVector2d::from_tile_id(self.attacker_occupies_tile).adjacent_ids_with_depth(
            self.adjacency_depth,
            &server,
        );
        make_listed_elligible(selection_status, &in_reach, world, true);
        proof {
            let center = hex_of_id(self.attacker_occupies_tile.0 as int);
            assert forall|i: int| 0 <= i < before.states.len() implies selection_status@.states[i]
                == self.eligibility(before.states, world@)[i] by {
                assert(cleared.states[i] == made_inelligible(before.states[i]));
                if listed(in_reach@, i) {
                    let m = choose|m: int|
                        #![trigger in_reach@[m]]
                        0 <= m < in_reach@.len() && in_reach@[m].0 == i;
                }
                if within_steps(center, hex_of_id(i), self.adjacency_depth as int) {
                    assert(listed(in_reach@, i));
                }
            }
            assert(selection_status@.states =~= self.eligibility(before.states, world@));
        }
    }

    /// The attack can be executed: the world is well formed and every blow
    /// fits.
    pub open spec fn can_execute(&self, selections: Seq<SelectedTile>, world: WorldView) -> bool {
        &&& world.wf()
        &&& attack_fits(world, self.damage, selections, Some(world.active_player))
    }

    /// The world and log after the attack: the active player deals the
    /// damage to the piece on each selected tile in turn.
    pub open spec fn execution(&self, before: WorldView, selections: Seq<SelectedTile>) -> (
        WorldView,
        Seq<ActionEffect>,
    ) {
        attacked(before, self.damage, selections, Some(before.active_player))
    }

    /// Deals the damage to the piece on each selected tile, killing those
    /// left without health.
    pub fn execute(&self, validated_selections: &[SelectedTile], world: &mut GameWorld) -> (log:
        ChangeLog)
        requires
            self.can_execute(validated_selections@, old(world)@),
        ensures
            (final(world)@, log@) == self.execution(old(world)@, validated_selections@),
            final(world).wf(),
    {
        let ghost initial = world@;
        let attacking_player = world.active_player.0;
        let mut log = ChangeLog::new();
        let mut k: usize = 0;
        proof {
            assert(validated_selections@.take(0) =~= Seq::<SelectedTile>::empty());
        }
        while k < validated_selections.len()
            invariant
                0 <= k <= validated_selections@.len(),
                world.wf(),
                world.active_player.0 == attacking_player,
                attacking_player == initial.active_player,
                attack_fits(
                    initial,
                    self.damage,
                    validated_selections@,
                    Some(attacking_player),
                ),
                (world@, log@) == attacked(
                    initial,
                    self.damage,
                    validated_selections@.take(k as int),
                    Some(attacking_player),
                ),
            decreases validated_selections@.len() - k,
        {
            let ghost taken = validated_selections@.take(k as int + 1);
            proof {
                lemma_attack_fits_prefix(
                    initial,
                    self.damage,
                    validated_selections@,
                    Some(attacking_player),
                    k + 1,
                );
                assert(taken.drop_last() =~= validated_selections@.take(k as int));
                assert(taken.last() == validated_selections@[k as int]);
            }
            damage_and_maybe_kill_piece(
                self.damage,
                validated_selections[k].id,
                Some(attacking_player),
                &mut log,
                world,
            );
            k = k + 1;
        }
        proof {
            assert(validated_selections@.take(k as int) =~= validated_selections@);
        }
        log
    }
}

/// An attack aimed at no tile changes nothing and logs nothing.
pub proof fn lemma_attack_on_no_tile(action: PieceAttacksAdjacent, before: WorldView)
    ensures
        action.execution(before, Seq::empty()) == (before, Seq::<ActionEffect>::empty()),
{
}

/// Aiming an attack at one more tile deals one more blow, after all the
/// others: the active player deals the action's damage to the piece on
/// that tile, in the world the earlier blows left, and its log follows
/// theirs.
pub proof fn lemma_attack_one_more_tile(
    action: PieceAttacksAdjacent,
    before: WorldView,
    selections: Seq<SelectedTile>,
    next: SelectedTile,
)
    ensures
        ({
            let (world, log) = action.execution(before, selections);
            let (blown, blow_log) = damaged(
                world,
                action.damage,
                next.id,
                Some(before.active_player),
            );
            action.execution(before, selections.push(next)) == (blown, log + blow_log)
        }),
{
    let longer = selections.push(next);
    assert(longer.drop_last() =~= selections);
    assert(longer.last() == next);
}

impl ForensicDescribe for PieceAttacksAdjacent {
    open spec fn description(&self) -> Seq<TextSnippetView> {
        seq![
            plain("Deal "@),
            colored(decimal(self.damage as nat) + " damage"@, ColorIndicators::Damage),
            plain(" to pieces on selected tiles within a "@),
            colored(decimal(self.damage as nat) + " ring"@, ColorIndicators::GeneralHighlight),
            plain(" radius"@),
        ]
    }

    fn forensic_description(&self) -> (r: Vec<TextSnippet>)
        ensures
            views_of(r@) == self.description(),
    {
        let damage = decimal_text(self.damage as u64).concat(" damage");
        let ring = decimal_text(self.damage as u64).concat(" ring");
        let r = vec![
            TextSnippet::new("Deal "),
            TextSnippet::colored(damage, ColorIndicators::Damage),
            TextSnippet::new(" to pieces on selected tiles within a "),
            TextSnippet::colored(ring, ColorIndicators::GeneralHighlight),
            TextSnippet::new(" radius"),
        ];
        proof {
            assert(views_of(r@) =~= self.description());
        }
        r
    }
}

} // verus!
