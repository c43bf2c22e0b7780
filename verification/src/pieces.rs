//! Pieces: their archetypes, the pieces on the board, and what happens when
//! one is damaged or killed.
use vstd::prelude::*;

use crate::orders::OrderId;
use crate::players::PlayerId;
use crate::requests::{ActionEffect, ChangeLog};
use crate::tile_mapping::{HexVector2d, TileId};
use crate::world::{piece_on_tile, GameWorld, PlayerView, WorldView};

verus! {

/// The index of a piece archetype in the archetype directory.
#[derive(Debug, Clone, Copy, PartialEq, Eq, Structural, PartialOrd, Ord, Hash)]
pub struct ArchetypeId(pub u32);

/// The direction a piece faces.
#[derive(Debug, Clone, Copy, PartialEq, Eq, Structural, Hash)]
pub enum FacingHexDirection {
    North,
    NorthEast,
    NorthWest,
    South,
    SouthEast,
    SouthWest,
}

/// The unit step in axial coordinates that a direction points along.
pub open spec fn direction_step(direction: FacingHexDirection) -> (int, int) {
    match direction {
        FacingHexDirection::North => (1int, 0int),
        FacingHexDirection::NorthEast => (0int, 1int),
        FacingHexDirection::NorthWest => (1int, -1int),
        FacingHexDirection::South => (-1int, 0int),
        FacingHexDirection::SouthEast => (-1int, 1int),
        FacingHexDirection::SouthWest => (0int, -1int),
    }
}

impl FacingHexDirection {
    /// The unit step that this direction points along.
    pub fn to_hex_vector(self) -> (r: HexVector2d)
        ensures
            r@ == direction_step(self),
    {
        match self {
            FacingHexDirection::North => HexVector2d::north(),
            FacingHexDirection::NorthEast => HexVector2d::north_east(),
            FacingHexDirection::NorthWest => HexVector2d::north_west(),
            FacingHexDirection::South => HexVector2d::south(),
            FacingHexDirection::SouthEast => HexVector2d::south_east(),
            FacingHexDirection::SouthWest => HexVector2d::south_west(),
        }
    }
}

/// The orders a piece can be given, by slot.
#[derive(Debug, Clone, Copy, PartialEq, Eq)]
pub struct Orders(pub [Option<OrderId>; 5]);

/// The blueprint from which pieces are spawned.
#[derive(Debug, Clone, Copy)]
pub struct LogicalPieceArchetype {
    pub max_health: u32,
    pub starting_orders_per_round: u8,
    pub orders: Orders,
    pub gives_extra_player_order: bool,
    pub default_monetary_value: u32,
    pub is_win_condition: bool,
    pub is_spawnpoint: bool,
}

/// Tried to get a piece archetype which did not exist for this game.
#[derive(Debug, Clone, Copy, PartialEq, Eq, Structural)]
pub struct InvaildIDErr(pub ArchetypeId);

/// All piece archetypes of a game, indexed by `ArchetypeId`.
#[derive(Debug)]
pub struct ArchetypeDirectory(pub Vec<LogicalPieceArchetype>);

impl ArchetypeDirectory {
    pub fn new(archetypes: Vec<LogicalPieceArchetype>) -> (r: Self)
        ensures
            r.0@ == archetypes@,
    {
        ArchetypeDirectory(archetypes)
    }

    pub fn get_archetype(&self, archetype: ArchetypeId) -> (r: Result<
        &LogicalPieceArchetype,
        InvaildIDErr,
    >)
        ensures
            archetype.0 < self.0@.len() ==> r == Ok::<&LogicalPieceArchetype, InvaildIDErr>(
                &self.0@[archetype.0 as int],
            ),
            archetype.0 >= self.0@.len() ==> r == Err::<&LogicalPieceArchetype, InvaildIDErr>(
                InvaildIDErr(archetype),
            ),
    {
        if (archetype.0 as usize) < self.0.len() {
            Ok(&self.0[archetype.0 as usize])
        } else {
            Err(InvaildIDErr(archetype))
        }
    }
}

#[derive(Debug, Clone, Copy, PartialEq, Eq, Structural)]
pub struct Health {
    pub max: u32,
    pub current: u32,
}

/// How many orders a piece may receive per round, and how many it has left.
#[derive(Debug, Clone, Copy, PartialEq, Eq)]
pub struct OrdersReceivable {
    pub per_round: u8,
    pub currently: u8,
}

/// Marks a piece whose owner receives an extra order at the start of each
/// of their turns.
#[derive(Debug, Clone, Copy, PartialEq, Eq, Structural)]
pub struct GivesExtraPlayerOrder;

/// Marks a piece whose loss loses its owner the game.
#[derive(Debug, Clone, Copy, PartialEq, Eq, Structural)]
pub struct IsWinCondition;

/// Marks a piece next to which its owner may spawn pieces.
#[derive(Debug, Clone, Copy, PartialEq, Eq, Structural)]
pub struct IsSpawnPoint;

/// The coins a player receives for killing a piece.
#[derive(Debug, Clone, Copy, PartialEq, Eq, Structural)]
pub struct MonetaryValue(pub u32);

/// A piece on the board.
#[derive(Debug, Clone, Copy, PartialEq, Eq)]
pub struct LogicalPiece {
    pub archetype: ArchetypeId,
    /// The tile the piece stands on.
    pub occupies: TileId,
    /// Pieces need not have an owner.
    pub owner: Option<PlayerId>,
    pub health: Health,
    pub orders_receivable: OrdersReceivable,
    pub orders: Orders,
    pub facing: FacingHexDirection,
    pub monetary_value: MonetaryValue,
    pub gives_extra_player_order: bool,
    pub is_spawn_point: bool,
    pub is_win_condition: bool,
}

/// The piece that `archetype` spawns on `tile` for `owner`, facing
/// `direction`: at full health, with no orders left this round.
pub open spec fn spawned_piece(
    archetype_id: ArchetypeId,
    archetype: LogicalPieceArchetype,
    owner: PlayerId,
    tile: TileId,
    direction: FacingHexDirection,
) -> LogicalPiece {
    LogicalPiece {
        archetype: archetype_id,
        occupies: tile,
        owner: Some(owner),
        health: Health { max: archetype.max_health, current: archetype.max_health },
        orders_receivable: OrdersReceivable {
            per_round: archetype.starting_orders_per_round,
            currently: 0,
        },
        orders: archetype.orders,
        facing: direction,
        monetary_value: MonetaryValue(archetype.default_monetary_value),
        gives_extra_player_order: archetype.gives_extra_player_order,
        is_spawn_point: archetype.is_spawnpoint,
        is_win_condition: archetype.is_win_condition,
    }
}

/// A piece spawned from an archetype carries what the archetype sets out:
/// its orders, full health, its orders per round (none of them left this
/// round), its monetary value and its flags; it stands on the tile it was
/// spawned on, owned by the player it was spawned for, facing the direction
/// chosen.
pub proof fn lemma_spawned_piece_follows_archetype(
    archetype_id: ArchetypeId,
    archetype: LogicalPieceArchetype,
    owner: PlayerId,
    tile: TileId,
    direction: FacingHexDirection,
)
    ensures
        ({
            let piece = spawned_piece(archetype_id, archetype, owner, tile, direction);
            &&& piece.archetype == archetype_id
            &&& piece.orders == archetype.orders
            &&& piece.health.max == archetype.max_health
            &&& piece.health.current == archetype.max_health
            &&& piece.orders_receivable.per_round == archetype.starting_orders_per_round
            &&& piece.orders_receivable.currently == 0
            &&& piece.monetary_value.0 == archetype.default_monetary_value
            &&& piece.gives_extra_player_order == archetype.gives_extra_player_order
            &&& piece.is_spawn_point == archetype.is_spawnpoint
            &&& piece.is_win_condition == archetype.is_win_condition
            &&& piece.occupies == tile
            &&& piece.owner == Some(owner)
            &&& piece.facing == direction
        }),
{
}

impl LogicalPiece {
    /// Spawns a piece from its archetype.
    pub fn spawn(
        archetype_id: ArchetypeId,
        archetype: &LogicalPieceArchetype,
        owner: PlayerId,
        tile: TileId,
        direction: FacingHexDirection,
    ) -> (r: Self)
        ensures
            r == spawned_piece(archetype_id, *archetype, owner, tile, direction),
            r.orders == archetype.orders,
            r.health.current == archetype.max_health,
            r.orders_receivable.per_round == archetype.starting_orders_per_round,
    {
        LogicalPiece {
            archetype: archetype_id,
            occupies: tile,
            owner: Some(owner),
            health: Health { max: archetype.max_health, current: archetype.max_health },
            orders_receivable: OrdersReceivable {
                per_round: archetype.starting_orders_per_round,
                currently: 0,
            },
            orders: archetype.orders,
            facing: direction,
            monetary_value: MonetaryValue(archetype.default_monetary_value),
            gives_extra_player_order: archetype.gives_extra_player_order,
            is_spawn_point: archetype.is_spawnpoint,
            is_win_condition: archetype.is_win_condition,
        }
    }
}

/// The world and log after the piece at position `k` is killed, by
/// `killer` if any: the kill is logged and the killer receives the piece's
/// monetary value. The piece itself is left where it is.
pub open spec fn killed(world: WorldView, k: int, killer: Option<PlayerId>) -> (
    WorldView,
    Seq<ActionEffect>,
) {
    let piece = world.pieces[k];
    let tile = piece.occupies;
    let value = piece.monetary_value.0;
    let players = match killer {
        Some(p) => world.players.update(
            p.0 as int,
            PlayerView { coins: (world.players[p.0 as int].coins + value) as u32, ..world.players[p.0 as int] },
        ),
        None => world.players,
    };
    let log = match killer {
        Some(p) => seq![
            ActionEffect::PieceKilled { on_tile: tile },
            ActionEffect::AlteredCoins {
                player: p,
                delta_coins: value as i32,
                from_tile: Some(tile),
            },
        ],
        None => seq![ActionEffect::PieceKilled { on_tile: tile }],
    };
    (WorldView { players, ..world }, log)
}

/// The killer's coins stay within a `u32`.
pub open spec fn kill_fits(world: WorldView, k: int, killer: Option<PlayerId>) -> bool {
    killer matches Some(p) ==> world.players[p.0 as int].coins + world.pieces[k].monetary_value.0
        <= u32::MAX
}

/// Kills the piece at position `piece`, crediting `killing_player` (if
/// any) with its monetary value.
pub fn kill_piece(
    piece: usize,
    killing_player: Option<PlayerId>,
    changelog: &mut ChangeLog,
    world: &mut GameWorld,
)
    requires
        old(world).wf(),
        piece < old(world)@.pieces.len(),
        killing_player matches Some(p) ==> (p.0 as int) < old(world)@.players.len(),
        kill_fits(old(world)@, piece as int, killing_player),
    ensures
        final(world)@ == killed(old(world)@, piece as int, killing_player).0,
        final(changelog)@ == old(changelog)@ + killed(old(world)@, piece as int, killing_player).1,
        final(world).wf(),
{
    let ghost before = world@;
    let tile_piece_was_on = world.pieces[piece].occupies;
    changelog.write(ActionEffect::PieceKilled { on_tile: tile_piece_was_on });
    if let Some(player) = killing_player {
        let p = player.0 as usize;
        let coins_to_give_killer = world.pieces[piece].monetary_value.0;
        proof {
            assert(world@.players[p as int] == world.players@[p as int]@);
        }
        world.players[p].coins.0 = world.players[p].coins.0 + coins_to_give_killer;
        changelog.write(
            ActionEffect::AlteredCoins {
                player,
                delta_coins: coins_to_give_killer as i32,
                from_tile: Some(tile_piece_was_on),
            },
        );
    }
    proof {
        assert(world@.players =~= killed(before, piece as int, killing_player).0.players);
        assert(world@ =~= killed(before, piece as int, killing_player).0);
        assert(changelog@ =~= old(changelog)@ + killed(before, piece as int, killing_player).1);
    }
}

/// The world and log after `damage` is dealt to the piece on `tile`, by
/// `attacker` if any: the piece loses that much health (at most all of
/// it), which is logged, and a piece left without health is killed. With
/// no piece on the tile nothing happens.
pub open spec fn damaged(world: WorldView, damage: u32, tile: TileId, attacker: Option<PlayerId>) -> (
    WorldView,
    Seq<ActionEffect>,
) {
    match piece_on_tile(world.pieces, tile) {
        None => (world, Seq::empty()),
        Some(k) => {
            let piece = world.pieces[k];
            let removed = if damage < piece.health.current {
                damage
            } else {
                piece.health.current
            };
            let hurt = LogicalPiece {
                health: Health { max: piece.health.max, current: (piece.health.current - removed) as u32 },
                ..piece
            };
            let after = WorldView { pieces: world.pieces.update(k, hurt), ..world };
            let log = seq![ActionEffect::DamagedPiece { on_tile: tile, hp_removed: removed }];
            if hurt.health.current == 0 {
                let (w, l) = killed(after, k, attacker);
                (w, log + l)
            } else {
                (after, log)
            }
        },
    }
}

/// A blow on a tile with a piece takes the damage off that piece's health
/// (no more than it has left), logs it first, and leaves every other piece
/// as it was; a blow on a tile without a piece changes nothing.
pub proof fn lemma_blow_on_a_tile(world: WorldView, damage: u32, tile: TileId, attacker: Option<PlayerId>)
    ensures
        piece_on_tile(world.pieces, tile) is None ==> damaged(world, damage, tile, attacker) == (
            world,
            Seq::<ActionEffect>::empty(),
        ),
        piece_on_tile(world.pieces, tile) matches Some(k) ==> ({
            let (after, log) = damaged(world, damage, tile, attacker);
            let current = world.pieces[k].health.current;
            let removed = if damage < current {
                damage
            } else {
                current
            };
            &&& log.len() >= 1
            &&& log[0] == ActionEffect::DamagedPiece { on_tile: tile, hp_removed: removed }
            &&& after.pieces.len() == world.pieces.len()
            &&& after.pieces[k].health.current == current - removed
            &&& after.pieces[k].health.max == world.pieces[k].health.max
            &&& after.pieces[k].occupies == world.pieces[k].occupies
            &&& forall|j: int|
                0 <= j < world.pieces.len() && j != k ==> #[trigger] after.pieces[j]
                    == world.pieces[j]
        }),
{
    crate::world::lemma_piece_on_tile_valid(world.pieces, tile);
}

/// Dealing the damage stays within the limits of the game's numbers.
pub open spec fn damage_fits(world: WorldView, damage: u32, tile: TileId, attacker: Option<PlayerId>) -> bool {
    piece_on_tile(world.pieces, tile) matches Some(k) ==> kill_fits(world, k, attacker)
}

/// Deals `damage` to the piece on `tile`, killing it if it has no health
/// left.
pub fn damage_and_maybe_kill_piece(
    damage: u32,
    tile: TileId,
    attacker: Option<PlayerId>,
    changelog: &mut ChangeLog,
    world: &mut GameWorld,
)
    requires
        old(world).wf(),
        attacker matches Some(p) ==> (p.0 as int) < old(world)@.players.len(),
        damage_fits(old(world)@, damage, tile, attacker),
    ensures
        final(world)@ == damaged(old(world)@, damage, tile, attacker).0,
        final(changelog)@ == old(changelog)@ + damaged(old(world)@, damage, tile, attacker).1,
        final(world).wf(),
{
    let ghost before = world@;
    let k = match world.find_piece_on_tile(tile) {
        Some(k) => k,
        None => {
            assert(changelog@ =~= old(changelog)@ + Seq::<ActionEffect>::empty());
            return ;
        },
    };
    let current = world.pieces[k].health.current;
    let hp_removed = if damage < current {
        damage
    } else {
        current
    };
    world.pieces[k].health.current = current - hp_removed;
    changelog.write(ActionEffect::DamagedPiece { on_tile: tile, hp_removed });
    let ghost after = world@;
    proof {
        let hurt = damaged(before, damage, tile, attacker);
        assert(world@.pieces =~= before.pieces.update(
            k as int,
            LogicalPiece {
                health: Health {
                    max: before.pieces[k as int].health.max,
                    current: (before.pieces[k as int].health.current - hp_removed) as u32,
                },
                ..before.pieces[k as int]
            },
        ));
    }
    if world.pieces[k].health.current == 0 {
        kill_piece(k, attacker, changelog, world);
    }
    proof {
        assert(changelog@ =~= old(changelog)@ + damaged(before, damage, tile, attacker).1);
    }
}

} // verus!
