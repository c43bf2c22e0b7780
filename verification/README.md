# core_game_logic

The rules of Hexatower, a chess inspired, turn-based, multiplayer strategy
game on a hexagonal board, written in Verus: every function states what it
does in `requires` / `ensures` clauses, and Verus proves it.

## Layout

- `src/tile_mapping.rs`: tile ids, which spiral outwards from tile zero, and
  the axial coordinates they convert to and from; neighbours and distances.
- `src/world.rs`: the state of a game (`GameWorld`) and its mathematical view
  (`WorldView`), with the well-formedness every operation keeps.
- `src/tiles.rs`, `src/pieces.rs`, `src/players.rs`, `src/cards.rs`,
  `src/markets.rs`, `src/orders.rs`: the elements of a game.
- `src/tile_based_actions/`: actions aimed at tiles. A player selects tiles
  one by one; each action marks which tiles may be selected next, and is
  then executed on the selected tiles.
- `src/requests.rs`: the requests players send (use a card, buy a card, give
  an order, end the turn), answered by `try_consume_request`. A refused
  request leaves the game as it was.
- `src/inputs_interface.rs`: the action a player is preparing and what still
  keeps it from being sent.
- `src/forensic_action_descriptions.rs`: descriptions of actions for the
  player to read.
- `src/board_settings.rs`: settings of a new game.
- `src/logical_testing_assets.rs`: the content games are set up with for
  testing.
- `app/main.rs`: the dedicated server, which accepts client connections.
- `tests/`: tests run against the compiled library.
