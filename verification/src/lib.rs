//! The rules of Hexatower: the board, its tiles and pieces, the players and
//! their cards, and the requests that players make of the game.
use vstd::prelude::*;

use crate::cards::{CardDirectory, CardId, LogicalCard};
use crate::logical_testing_assets::{
    logical_cards_for_testing, logical_markets_for_testing, logical_orders_for_testing,
    logical_pieces_for_testing, starting_cards_for_testing, testing_archetypes, testing_cards,
    testing_markets, testing_orders, testing_starting_cards,
};
use crate::markets::{LogicalMarket, MarketDirectory};
use crate::orders::{LogicalOrder, OrderDirectory};
use crate::pieces::{ArchetypeDirectory, LogicalPieceArchetype};
use crate::players::{
    apply_start_turn_effects, initialize_players, start_turn, starting_player, ActivePlayer, PlayerId,
};
use crate::requests::{ActionEffect, ChangeLog};
use crate::tile_mapping::spec_tiles_on_board;
use crate::tiles::{fresh_tile, initialize_tiles};
use crate::world::{GameWorld, WorldView, BOARD_TILE_LIMIT};

pub mod board_settings;
pub mod cards;
pub mod forensic_action_descriptions;
pub mod inputs_interface;
pub mod logical_testing_assets;
pub mod markets;
pub mod orders;
pub mod pieces;
pub mod players;
pub mod requests;
pub mod tile_based_actions;
pub mod tile_mapping;
pub mod tiles;
pub mod world;

verus! {

/// An id that does not name anything in this game.
#[derive(Debug, Clone, Copy, PartialEq, Eq)]
pub struct InvalidIdErr<T>(pub T);

impl<T> InvalidIdErr<T> {
    pub fn new(id: T) -> (r: Self)
        ensures
            r == InvalidIdErr(id),
    {
        InvalidIdErr(id)
    }
}

/// What a new game is made of.
pub struct CreationParameters {
    /// The number of rings of tiles around tile zero.
    pub board_size: u32,
    pub player_count: u8,
    pub all_cards: Vec<LogicalCard>,
    pub all_markets: Vec<LogicalMarket>,
    pub piece_archetypes: Vec<LogicalPieceArchetype>,
    /// The cards every player starts with.
    pub starting_cards: Vec<CardId>,
    pub orders: Vec<LogicalOrder>,
}

impl CreationParameters {
    /// The game these parameters create, before its first turn starts: a
    /// board of basic tiles, no pieces, every player with the starting
    /// cards, and player zero to act.
    pub open spec fn initial_world(&self) -> WorldView {
        WorldView {
            tiles: Seq::new(spec_tiles_on_board(self.board_size as int) as nat, |i: int| fresh_tile()),
            pieces: Seq::empty(),
            players: Seq::new(
                self.player_count as nat,
                |i: int| starting_player(self.starting_cards@),
            ),
            active_player: PlayerId(0),
            cards: self.all_cards@,
            markets: self.all_markets@,
            orders: self.orders@,
            archetypes: self.piece_archetypes@,
        }
    }

    /// Creates the game, and starts the turn of player zero.
    pub fn create_logical_world(self) -> (r: (GameWorld, ChangeLog))
        requires
            spec_tiles_on_board(self.board_size as int) <= BOARD_TILE_LIMIT,
            self.player_count >= 1,
        ensures
            r.0@ == start_turn(self.initial_world(), PlayerId(0)),
            r.0.wf(),
            r.1@ == Seq::<ActionEffect>::empty(),
    {
        let ghost initial = self.initial_world();
        let tiles = initialize_tiles(self.board_size);
        let players = initialize_players(self.player_count, self.starting_cards.as_slice());
        let mut logical_world = GameWorld {
            tiles,
            pieces: Vec::new(),
            players,
            active_player: ActivePlayer(PlayerId(0)),
            cards: CardDirectory::new(self.all_cards),
            markets: MarketDirectory::new(self.all_markets),
            orders: OrderDirectory::new(self.orders),
            archetypes: ArchetypeDirectory::new(self.piece_archetypes),
        };
        proof {
            assert(logical_world@ =~= initial);
            assert(crate::players::extra_orders(initial.pieces, PlayerId(0)) == 0);
        }
        let log = match apply_start_turn_effects(&mut logical_world, PlayerId(0)) {
            Ok(log) => log,
            Err(_) => ChangeLog::new(),
        };
        (logical_world, log)
    }

    /// The parameters games are set up with for testing: a board of four
    /// rings, three players, and the testing cards, markets, pieces and
    /// orders.
    pub open spec fn testing_world() -> WorldView {
        WorldView {
            tiles: Seq::new(spec_tiles_on_board(4) as nat, |i: int| fresh_tile()),
            pieces: Seq::empty(),
            players: Seq::new(3, |i: int| starting_player(testing_starting_cards())),
            active_player: PlayerId(0),
            cards: testing_cards(),
            markets: testing_markets(),
            orders: testing_orders(),
            archetypes: testing_archetypes(),
        }
    }

    /// A game created with the testing parameters, with the turn of player
    /// zero started.
    pub fn testing_default() -> (r: GameWorld)
        ensures
            r@ == start_turn(CreationParameters::testing_world(), PlayerId(0)),
            r.wf(),
    {
        let parameters = CreationParameters {
            board_size: 4,
            player_count: 3,
            all_cards: logical_cards_for_testing(),
            all_markets: logical_markets_for_testing(),
            starting_cards: starting_cards_for_testing(),
            piece_archetypes: logical_pieces_for_testing(),
            orders: logical_orders_for_testing(),
        };
        proof {
            assert(parameters.initial_world() =~= CreationParameters::testing_world());
        }
        parameters.create_logical_world().0
    }
}

} // verus!
