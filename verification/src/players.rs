//! Players: their ids, their card inventories, coins and orders.
use vstd::prelude::*;

use crate::cards::CardId;
use crate::pieces::{LogicalPiece, OrdersReceivable};
use crate::requests::{ActionEffect, ChangeLog};
use crate::world::{GameWorld, PlayerView, WorldView};

verus! {

#[derive(Debug, Clone, Copy, PartialEq, Eq, Structural, PartialOrd, Ord, Hash)]
pub struct PlayerId(pub u8);

impl PlayerId {
    pub fn id(&self) -> (r: u8)
        ensures
            r == self.0,
    {
        self.0
    }
}

/// Tried to get a player with an invalid id.
#[derive(Debug, Clone, Copy, PartialEq, Eq, Structural)]
pub struct InvalidIdErr(pub PlayerId);

pub const STARTING_COINS: u32 = 25;

pub const INVENTORY_MAX_SIZE: u8 = 5;

/// The position of a card in a player's inventory.
#[derive(Debug, Clone, Copy, PartialEq, Eq, Structural, PartialOrd, Ord, Hash)]
pub struct InventoryIndex(pub u8);

#[derive(Debug, Clone, Copy, PartialEq, Eq, Structural)]
pub enum InventoryError {
    /// Tried to add a card to a player's inventory, but their inventory was
    /// full.
    InventoryIsFull,
    /// The inventory did not have a card at that index.
    InvalidIndex(InventoryIndex),
}

/// The cards a player holds, in the order they were received.
#[derive(Debug)]
pub struct Inventory {
    hand: Vec<CardId>,
    max_size: u8,
}

pub struct InventoryView {
    pub hand: Seq<CardId>,
    pub max_size: u8,
}

impl View for Inventory {
    type V = InventoryView;

    closed spec fn view(&self) -> InventoryView {
        InventoryView { hand: self.hand@, max_size: self.max_size }
    }
}

/// Whether an inventory holding `hand` has room for another card. The size
/// of the hand is compared modulo 256, as a `u8`.
pub open spec fn inventory_has_room(inventory: InventoryView) -> bool {
    (inventory.hand.len() as u8) < inventory.max_size
}

impl Inventory {
    /// An inventory holding `hand`, with room for `max_size` cards.
    pub fn new(hand: Vec<CardId>, max_size: u8) -> (r: Self)
        ensures
            r@.hand == hand@,
            r@.max_size == max_size,
    {
        Inventory { hand, max_size }
    }

    /// Adds `card` at the end of the hand, unless the inventory is full.
    pub fn try_add_card(&mut self, card: CardId) -> (r: Result<(), InventoryError>)
        ensures
            r is Ok <==> inventory_has_room(old(self)@),
            r is Ok ==> final(self)@.hand == old(self)@.hand.push(card),
            r is Err ==> final(self)@.hand == old(self)@.hand && r == Err::<(), InventoryError>(
                InventoryError::InventoryIsFull,
            ),
            final(self)@.max_size == old(self)@.max_size,
    {
        if (self.hand.len() as u8) < self.max_size {
            self.hand.push(card);
            Ok(())
        } else {
            Err(InventoryError::InventoryIsFull)
        }
    }

    /// The card at `index_in_inventory`.
    pub fn get_card(&self, index_in_inventory: InventoryIndex) -> (r: Result<CardId, InventoryError>)
        ensures
            index_in_inventory.0 < self@.hand.len() ==> r == Ok::<CardId, InventoryError>(
                self@.hand[index_in_inventory.0 as int],
            ),
            index_in_inventory.0 >= self@.hand.len() ==> r == Err::<CardId, InventoryError>(
                InventoryError::InvalidIndex(index_in_inventory),
            ),
    {
        if (index_in_inventory.0 as usize) < self.hand.len() {
            Ok(self.hand[index_in_inventory.0 as usize])
        } else {
            Err(InventoryError::InvalidIndex(index_in_inventory))
        }
    }

    /// Removes the card at `index_in_inventory`, shifting later cards down.
    /// Note that removing a card will invalidate any data holding an index
    /// for the inventory.
    pub fn remove_card(&mut self, index_in_inventory: InventoryIndex)
        requires
            index_in_inventory.0 < old(self)@.hand.len(),
        ensures
            final(self)@.hand == old(self)@.hand.remove(index_in_inventory.0 as int),
            final(self)@.max_size == old(self)@.max_size,
    {
        self.hand.remove(index_in_inventory.0 as usize);
    }

    pub fn all_cards(&self) -> (r: &[CardId])
        ensures
            r@ == self@.hand,
    {
        self.hand.as_slice()
    }

    pub fn max_card_capacity(&self) -> (r: u8)
        ensures
            r == self@.max_size,
    {
        self.max_size
    }
}

#[derive(Debug, Clone, Copy, PartialEq, Eq, Structural)]
pub struct Coins(pub u32);

/// The player whose turn it is.
#[derive(Debug, Clone, Copy, PartialEq, Eq, Structural)]
pub struct ActivePlayer(pub PlayerId);

#[derive(Debug, Clone, Copy, PartialEq, Eq, Structural)]
pub enum PlayerState {
    HasNoWinConditionYet,
    Alive,
    Dead,
}

/// Whether a player is still in the game.
#[derive(Debug, Clone, Copy, PartialEq, Eq, Structural)]
pub enum LifeState {
    Alive,
    Dead,
}

#[derive(Debug, Clone, Copy, PartialEq, Eq, Structural)]
pub struct PlayerOrdersRemaining {
    pub remaining: u8,
}

/// A player of the game. Its `PlayerId` is its position among the players.
#[derive(Debug)]
pub struct LogicalPlayer {
    pub inventory: Inventory,
    pub coins: Coins,
    pub state: PlayerState,
    pub orders_remaining: PlayerOrdersRemaining,
}

/// The piece gives `player` an extra order at the start of their turns.
pub open spec fn gives_extra_order_to(piece: LogicalPiece, player: PlayerId) -> bool {
    piece.owner == Some(player) && piece.gives_extra_player_order
}

/// The number of pieces that give `player` an extra order.
pub open spec fn extra_orders(pieces: Seq<LogicalPiece>, player: PlayerId) -> nat
    decreases pieces.len(),
{
    if pieces.len() == 0 {
        0
    } else {
        extra_orders(pieces.drop_last(), player) + if gives_extra_order_to(pieces.last(), player) {
            1nat
        } else {
            0nat
        }
    }
}

/// The orders `player` has once their turn starts: two more, and one more
/// per piece of theirs that gives an extra order.
pub open spec fn orders_at_turn_start(world: WorldView, player: PlayerId) -> int {
    world.players[player.0 as int].orders_remaining + 2 + extra_orders(world.pieces, player)
}

/// The world once `player`'s turn has started.
pub open spec fn start_turn(world: WorldView, player: PlayerId) -> WorldView {
    WorldView {
        players: world.players.update(
            player.0 as int,
            PlayerView {
                orders_remaining: orders_at_turn_start(world, player) as u8,
                ..world.players[player.0 as int]
            },
        ),
        ..world
    }
}

/// The change of a piece's remaining orders when they are reset: its orders
/// per round minus the orders it has left, both read as `i8`.
pub open spec fn order_difference(piece: LogicalPiece) -> int {
    (piece.orders_receivable.per_round as i8) as int - (piece.orders_receivable.currently as i8) as int
}

/// The effects logged when the remaining orders of `piece` are reset.
pub open spec fn piece_reset_effects(piece: LogicalPiece) -> Seq<ActionEffect> {
    let d = order_difference(piece);
    if d > 0 {
        Seq::new(
            d as nat,
            |i: int| ActionEffect::IncreasedRemainingOrdersOfPiece { tile_of_piece: piece.occupies },
        )
    } else if d < 0 {
        Seq::new(
            (-d) as nat,
            |i: int| ActionEffect::ReducedRemainingOrdersOfPiece { tile_of_piece: piece.occupies },
        )
    } else {
        Seq::empty()
    }
}

/// The effects logged when the remaining orders of `player`'s pieces are
/// reset, piece by piece in spawn order.
pub open spec fn end_turn_piece_effects(pieces: Seq<LogicalPiece>, player: PlayerId) -> Seq<
    ActionEffect,
>
    decreases pieces.len(),
{
    if pieces.len() == 0 {
        Seq::empty()
    } else {
        end_turn_piece_effects(pieces.drop_last(), player) + if pieces.last().owner == Some(player) {
            piece_reset_effects(pieces.last())
        } else {
            Seq::empty()
        }
    }
}

/// The piece with its remaining orders reset to its orders per round.
pub open spec fn reset_orders(piece: LogicalPiece) -> LogicalPiece {
    LogicalPiece {
        orders_receivable: OrdersReceivable {
            per_round: piece.orders_receivable.per_round,
            currently: piece.orders_receivable.per_round,
        },
        ..piece
    }
}

/// The world once `player`'s turn has ended: they lose their remaining
/// orders, and their pieces get their orders per round back.
pub open spec fn end_turn(world: WorldView, player: PlayerId) -> WorldView {
    WorldView {
        players: world.players.update(
            player.0 as int,
            PlayerView { orders_remaining: 0, ..world.players[player.0 as int] },
        ),
        pieces: world.pieces.map_values(
            |piece: LogicalPiece|
                if piece.owner == Some(player) {
                    reset_orders(piece)
                } else {
                    piece
                },
        ),
        ..world
    }
}

/// The log of ending `player`'s turn: one lost order per order they had
/// left, then the reset of their pieces' orders.
pub open spec fn end_turn_log(world: WorldView, player: PlayerId) -> Seq<ActionEffect> {
    Seq::new(
        world.players[player.0 as int].orders_remaining as nat,
        |i: int| ActionEffect::ReducedRemaingOrdersOfPlayer(player),
    ) + end_turn_piece_effects(world.pieces, player)
}

/// Ending `player`'s turn gives each of their pieces its orders per round
/// back, takes away the orders `player` had left, and changes no other
/// piece and no other player.
pub proof fn lemma_end_turn_resets_orders(world: WorldView, player: PlayerId)
    requires
        (player.0 as int) < world.players.len(),
    ensures
        end_turn(world, player).pieces.len() == world.pieces.len(),
        forall|k: int|
            0 <= k < world.pieces.len() && world.pieces[k].owner == Some(player) ==> {
                let after = #[trigger] end_turn(world, player).pieces[k];
                &&& after.orders_receivable.currently == world.pieces[k].orders_receivable.per_round
                &&& after.orders_receivable.per_round == world.pieces[k].orders_receivable.per_round
                &&& after.occupies == world.pieces[k].occupies
                &&& after.owner == world.pieces[k].owner
                &&& after.health == world.pieces[k].health
                &&& after.orders == world.pieces[k].orders
            },
        forall|k: int|
            0 <= k < world.pieces.len() && world.pieces[k].owner != Some(player) ==> #[trigger] end_turn(
                world,
                player,
            ).pieces[k] == world.pieces[k],
        end_turn(world, player).players.len() == world.players.len(),
        end_turn(world, player).players[player.0 as int].orders_remaining == 0,
        forall|i: int|
            0 <= i < world.players.len() && i != player.0 ==> #[trigger] end_turn(
                world,
                player,
            ).players[i] == world.players[i],
{
}

/// Resetting the orders of `player`'s pieces stays within `i8`.
pub open spec fn end_turn_fits(world: WorldView, player: PlayerId) -> bool {
    forall|k: int|
        #![trigger world.pieces[k]]
        0 <= k < world.pieces.len() && world.pieces[k].owner == Some(player) ==> -127
            <= order_difference(world.pieces[k]) <= 127
}

/// Gives `player` the orders of a new turn. The log returned is empty.
pub fn apply_start_turn_effects(world: &mut GameWorld, player: PlayerId) -> (r: Result<
    ChangeLog,
    InvalidIdErr,
>)
    requires
        old(world).wf(),
        (player.0 as int) < old(world)@.players.len() ==> orders_at_turn_start(old(world)@, player)
            <= u8::MAX,
    ensures
        (player.0 as int) >= old(world)@.players.len() ==> r == Err::<ChangeLog, InvalidIdErr>(
            InvalidIdErr(player),
        ) && final(world)@ == old(world)@,
        (player.0 as int) < old(world)@.players.len() ==> (r matches Ok(log) && log@
            == Seq::<ActionEffect>::empty() && final(world)@ == start_turn(old(world)@, player)),
        final(world).wf(),
{
    if (player.0 as usize) >= world.players.len() {
        return Err(InvalidIdErr(player));
    }
    let p = player.0 as usize;
    let mut orders_to_give: u8 = 2;
    let mut log = ChangeLog::new();
    log.write(ActionEffect::IncreasedRemainingOrdersOfPlayer { receipient: player, source: None });
    log.write(ActionEffect::IncreasedRemainingOrdersOfPlayer { receipient: player, source: None });
    let mut k: usize = 0;
    while k < world.pieces.len()
        invariant
            0 <= k <= world.pieces@.len(),
            p == player.0,
            p < world@.players.len(),
            orders_to_give == 2 + extra_orders(world@.pieces.take(k as int), player),
            orders_at_turn_start(world@, player) <= u8::MAX,
        decreases world.pieces@.len() - k,
    {
        proof {
            let taken = world@.pieces.take(k as int + 1);
            assert(taken.drop_last() =~= world@.pieces.take(k as int));
            lemma_extra_orders_bounded(world@.pieces, player, k as int + 1);
        }
        let piece = world.pieces[k];
        if piece.gives_extra_player_order && crate::world::owned_by(piece.owner, player) {
            orders_to_give = orders_to_give + 1;
            log.write(
                ActionEffect::IncreasedRemainingOrdersOfPlayer {
                    receipient: player,
                    source: Some(piece.occupies),
                },
            );
        }
        k = k + 1;
    }
    proof {
        assert(world@.pieces.take(k as int) =~= world@.pieces);
    }
    let ghost before = world@;
    world.players[p].orders_remaining.remaining = world.players[p].orders_remaining.remaining
        + orders_to_give;
    proof {
        assert(world@.players =~= start_turn(before, player).players);
        assert(world@ =~= start_turn(before, player));
    }
    Ok(ChangeLog::new())
}

/// Extra orders counted over a prefix never exceed those over the whole.
proof fn lemma_extra_orders_bounded(pieces: Seq<LogicalPiece>, player: PlayerId, k: int)
    requires
        0 <= k <= pieces.len(),
    ensures
        extra_orders(pieces.take(k), player) <= extra_orders(pieces, player),
    decreases pieces.len(),
{
    if k < pieces.len() {
        assert(pieces.drop_last().take(k) =~= pieces.take(k));
        lemma_extra_orders_bounded(pieces.drop_last(), player, k);
    } else {
        assert(pieces.take(k) =~= pieces);
    }
}

/// Ends `player`'s turn: they lose their remaining orders, and their pieces
/// get their orders per round back.
pub fn apply_end_turn_effects(world: &mut GameWorld, player: PlayerId) -> (r: Result<
    ChangeLog,
    InvalidIdErr,
>)
    requires
        old(world).wf(),
        end_turn_fits(old(world)@, player),
    ensures
        (player.0 as int) >= old(world)@.players.len() ==> r == Err::<ChangeLog, InvalidIdErr>(
            InvalidIdErr(player),
        ) && final(world)@ == old(world)@,
        (player.0 as int) < old(world)@.players.len() ==> (r matches Ok(log) && log@
            == end_turn_log(old(world)@, player) && final(world)@ == end_turn(old(world)@, player)),
        final(world).wf(),
{
    if (player.0 as usize) >= world.players.len() {
        return Err(InvalidIdErr(player));
    }
    let p = player.0 as usize;
    let ghost before = world@;
    let mut log = ChangeLog::new();
    let remaining = world.players[p].orders_remaining.remaining;
    let mut i: u8 = 0;
    while i < remaining
        invariant
            0 <= i <= remaining,
            log@ == Seq::new(i as nat, |j: int| ActionEffect::ReducedRemaingOrdersOfPlayer(player)),
        decreases remaining - i,
    {
        log.write(ActionEffect::ReducedRemaingOrdersOfPlayer(player));
        proof {
            assert(log@ =~= Seq::new(
                (i + 1) as nat,
                |j: int| ActionEffect::ReducedRemaingOrdersOfPlayer(player),
            ));
        }
        i = i + 1;
    }
    world.players[p].orders_remaining.remaining = 0;
    let ghost after_players = world@;
    let mut k: usize = 0;
    while k < world.pieces.len()
        invariant
            0 <= k <= world.pieces@.len(),
            p == player.0,
            world@.pieces.len() == before.pieces.len(),
            world@.players == after_players.players,
            world@.tiles == before.tiles,
            world@.active_player == before.active_player,
            world@.cards == before.cards,
            world@.markets == before.markets,
            world@.orders == before.orders,
            world@.archetypes == before.archetypes,
            after_players.players == end_turn(before, player).players,
            end_turn_fits(before, player),
            forall|j: int|
                #![trigger world@.pieces[j]]
                0 <= j < k ==> world@.pieces[j] == end_turn(before, player).pieces[j],
            forall|j: int| #![trigger world@.pieces[j]] k <= j < world@.pieces.len() ==> world@.pieces[j] == before.pieces[j],
            log@ == Seq::new(
                before.players[player.0 as int].orders_remaining as nat,
                |j: int| ActionEffect::ReducedRemaingOrdersOfPlayer(player),
            ) + end_turn_piece_effects(before.pieces.take(k as int), player),
        decreases world.pieces@.len() - k,
    {
        let piece = world.pieces[k];
        proof {
            let taken = before.pieces.take(k as int + 1);
            assert(taken.drop_last() =~= before.pieces.take(k as int));
            assert(taken.last() == before.pieces[k as int]);
        }
        if crate::world::owned_by(piece.owner, player) {
            let tile_id = piece.occupies;
            let difference_in_orders: i8 = piece.orders_receivable.per_round as i8
                - piece.orders_receivable.currently as i8;
            let ghost log_before = log@;
            if difference_in_orders > 0 {
                let mut m: i8 = 0;
                while m < difference_in_orders
                    invariant
                        0 <= m <= difference_in_orders,
                        log@ == log_before + Seq::new(
                            m as nat,
                            |j: int|
                                ActionEffect::IncreasedRemainingOrdersOfPiece {
                                    tile_of_piece: tile_id,
                                },
                        ),
                    decreases difference_in_orders - m,
                {
                    log.write(ActionEffect::IncreasedRemainingOrdersOfPiece { tile_of_piece: tile_id });
                    proof {
                        assert(log@ =~= log_before + Seq::new(
                            (m + 1) as nat,
                            |j: int|
                                ActionEffect::IncreasedRemainingOrdersOfPiece {
                                    tile_of_piece: tile_id,
                                },
                        ));
                    }
                    m = m + 1;
                }
            } else if difference_in_orders < 0 {
                let mut m: i8 = 0;
                while m < -difference_in_orders
                    invariant
                        0 <= m <= -difference_in_orders,
                        difference_in_orders < 0,
                        difference_in_orders >= -127,
                        log@ == log_before + Seq::new(
                            m as nat,
                            |j: int|
                                ActionEffect::ReducedRemainingOrdersOfPiece {
                                    tile_of_piece: tile_id,
                                },
                        ),
                    decreases -difference_in_orders - m,
                {
                    log.write(ActionEffect::ReducedRemainingOrdersOfPiece { tile_of_piece: tile_id });
                    proof {
                        assert(log@ =~= log_before + Seq::new(
                            (m + 1) as nat,
                            |j: int|
                                ActionEffect::ReducedRemainingOrdersOfPiece {
                                    tile_of_piece: tile_id,
                                },
                        ));
                    }
                    m = m + 1;
                }
            }
            world.pieces[k].orders_receivable.currently = world.pieces[k].orders_receivable.per_round;
            proof {
                assert(log@ =~= Seq::new(
                    before.players[player.0 as int].orders_remaining as nat,
                    |j: int| ActionEffect::ReducedRemaingOrdersOfPlayer(player),
                ) + end_turn_piece_effects(before.pieces.take(k as int + 1), player));
            }
        } else {
            proof {
                assert(log@ =~= Seq::new(
                    before.players[player.0 as int].orders_remaining as nat,
                    |j: int| ActionEffect::ReducedRemaingOrdersOfPlayer(player),
                ) + end_turn_piece_effects(before.pieces.take(k as int + 1), player));
            }
        }
        k = k + 1;
    }
    proof {
        assert(before.pieces.take(k as int) =~= before.pieces);
        assert(world@.pieces =~= end_turn(before, player).pieces);
        assert(world@ =~= end_turn(before, player));
    }
    Ok(log)
}

/// A player at the start of the game, holding `starting_cards`.
pub open spec fn starting_player(starting_cards: Seq<CardId>) -> PlayerView {
    PlayerView {
        hand: starting_cards,
        max_size: INVENTORY_MAX_SIZE,
        coins: STARTING_COINS,
        state: PlayerState::HasNoWinConditionYet,
        orders_remaining: 2,
    }
}

/// The players of a new game, each holding `starting_cards`.
pub fn initialize_players(player_count: u8, starting_cards: &[CardId]) -> (r: Vec<LogicalPlayer>)
    ensures
        r@.map_values(|p: LogicalPlayer| p@) == Seq::new(
            player_count as nat,
            |i: int| starting_player(starting_cards@),
        ),
{
    let mut players: Vec<LogicalPlayer> = Vec::new();
    let mut id: u8 = 0;
    while id < player_count
        invariant
            id <= player_count,
            players@.map_values(|p: LogicalPlayer| p@) == Seq::new(
                id as nat,
                |i: int| starting_player(starting_cards@),
            ),
        decreases player_count - id,
    {
        let mut hand: Vec<CardId> = Vec::new();
        let mut k: usize = 0;
        while k < starting_cards.len()
            invariant
                0 <= k <= starting_cards@.len(),
                hand@ == starting_cards@.take(k as int),
            decreases starting_cards@.len() - k,
        {
            hand.push(starting_cards[k]);
            proof {
                assert(hand@ =~= starting_cards@.take(k as int + 1));
            }
            k = k + 1;
        }
        proof {
            assert(hand@ =~= starting_cards@);
        }
        let ghost prev = players@;
        let player = LogicalPlayer {
            inventory: Inventory::new(hand, INVENTORY_MAX_SIZE),
            coins: Coins(STARTING_COINS),
            state: PlayerState::HasNoWinConditionYet,
            orders_remaining: PlayerOrdersRemaining { remaining: 2 },
        };
        assert(player@ == starting_player(starting_cards@));
        players.push(player);
        proof {
            assert(players@ == prev.push(player));
            let views = players@.map_values(|p: LogicalPlayer| p@);
            let prev_views = prev.map_values(|p: LogicalPlayer| p@);
            assert(prev_views.len() == prev.len());
            assert(prev.len() == id);
            assert(views.len() == id + 1);
            assert forall|j: int| 0 <= j < id + 1 implies #[trigger] views[j] == starting_player(
                starting_cards@,
            ) by {
                if j < id {
                    assert(players@[j] == prev[j]);
                    assert(prev_views[j] == starting_player(starting_cards@));
                }
            }
            assert(players@.map_values(|p: LogicalPlayer| p@) =~= Seq::new(
                (id + 1) as nat,
                |i: int| starting_player(starting_cards@),
            ));
        }
        id = id + 1;
    }
    players
}

} // verus!
