use core_game_logic::board_settings::{BoardSize, ClickThroughSelector, PresetBoardSizes};
use core_game_logic::cards::CardId;
use core_game_logic::forensic_action_descriptions::{
    decimal_text, no_description, ColorIndicators, ForensicDescribe, LinkedGamplayElement,
    SnippetContent, TextSnippet,
};
use core_game_logic::markets::MarketId;
use core_game_logic::players::{Inventory, InventoryError, InventoryIndex};
use core_game_logic::requests::{ActionEffect, ChangeLog};
use core_game_logic::tile_based_actions::change_tile_type::ConvertTileTo;
use core_game_logic::tile_based_actions::damage_piece::PieceAttacksAdjacent;
use core_game_logic::tile_based_actions::make_market_tile::MakeMarketTile;
use core_game_logic::tile_mapping::{valid_neighbours, TileId, TileIdServer};
use core_game_logic::tiles::TileType;

fn text(snippet: &TextSnippet) -> String {
    match &snippet.content {
        SnippetContent::PlainText(t) => t.clone(),
        SnippetContent::Link(e) => format!("<{e:?}>"),
    }
}

fn whole(snippets: &[TextSnippet]) -> String {
    snippets.iter().map(text).collect()
}

#[test]
fn numbers_are_written_in_decimal() {
    assert_eq!(decimal_text(0), "0");
    assert_eq!(decimal_text(7), "7");
    assert_eq!(decimal_text(10), "10");
    assert_eq!(decimal_text(1234567890), "1234567890");
    assert_eq!(decimal_text(u32::MAX as u64), "4294967295");
    assert_eq!(decimal_text(u64::MAX), "18446744073709551615");
}

#[test]
fn descriptions_of_actions() {
    let convert = ConvertTileTo { target_type: TileType::Ex1, restrictions: None };
    let d = convert.forensic_description();
    assert_eq!(whole(&d), "Convert selected tiles into <Tile(Ex1)> tiles.");
    assert!(matches!(d[1].content, SnippetContent::Link(LinkedGamplayElement::Tile(TileType::Ex1))));

    let market = MakeMarketTile { market: MarketId(2) };
    assert_eq!(
        whole(&market.forensic_description()),
        "Spawns <Market(MarketId(2))> on selected tiles. You must occupy a market in order to purchase its wares."
    );

    let attack = PieceAttacksAdjacent { attacker_occupies_tile: TileId(0), damage: 12, adjacency_depth: 2 };
    let d = attack.forensic_description();
    assert_eq!(d.len(), 5);
    assert_eq!(text(&d[1]), "12 damage");
    assert!(matches!(d[1].special_color, Some(ColorIndicators::Damage)));
    assert_eq!(text(&d[3]), "12 ring");
    assert!(matches!(d[3].special_color, Some(ColorIndicators::GeneralHighlight)));
    assert!(d[0].special_color.is_none());

    let none = no_description();
    assert_eq!(whole(&none), "No description implemented yet.");
    assert_eq!(text(&TextSnippet::new("abc")), "abc");
}

#[test]
fn an_inventory_holds_its_capacity_and_no_more() {
    let mut inventory = Inventory::new(vec![CardId(4)], 3);
    assert_eq!(inventory.max_card_capacity(), 3);
    assert_eq!(inventory.try_add_card(CardId(5)), Ok(()));
    assert_eq!(inventory.try_add_card(CardId(6)), Ok(()));
    assert_eq!(inventory.try_add_card(CardId(7)), Err(InventoryError::InventoryIsFull));
    assert_eq!(inventory.all_cards(), &[CardId(4), CardId(5), CardId(6)]);
    assert_eq!(inventory.get_card(InventoryIndex(1)), Ok(CardId(5)));
    assert_eq!(inventory.get_card(InventoryIndex(3)), Err(InventoryError::InvalidIndex(InventoryIndex(3))));
    inventory.remove_card(InventoryIndex(0));
    assert_eq!(inventory.all_cards(), &[CardId(5), CardId(6)]);
}

#[test]
fn a_change_log_keeps_effects_in_order() {
    let mut log = ChangeLog::new();
    log.write(ActionEffect::EndedTurn(core_game_logic::players::PlayerId(0)));
    let mut more = ChangeLog::from_effects(vec![ActionEffect::PieceKilled { on_tile: TileId(3) }]);
    log.append(&mut more);
    assert_eq!(
        log.read(),
        &[
            ActionEffect::EndedTurn(core_game_logic::players::PlayerId(0)),
            ActionEffect::PieceKilled { on_tile: TileId(3) }
        ]
    );
    assert!(more.read().is_empty());
}

#[test]
fn adjacency_goes_both_ways() {
    let server = TileIdServer { total_tiles_on_board: 61 };
    let neighbours: Vec<Vec<TileId>> = (0..61u32).map(|a| valid_neighbours(TileId(a), &server)).collect();
    for a in 0..61usize {
        for b in 0..61usize {
            assert_eq!(
                neighbours[a].contains(&TileId(b as u32)),
                neighbours[b].contains(&TileId(a as u32)),
                "tiles {a} and {b}"
            );
        }
    }
}

#[test]
fn board_sizes_step_round_in_a_cycle() {
    let mut size = PresetBoardSizes::default();
    assert_eq!(size, PresetBoardSizes::Regular);
    assert_eq!(size.display_text(), "Regular (3-4p)");
    size.next_option();
    assert_eq!(size, PresetBoardSizes::Large);
    assert_eq!(size.display_text(), "Large (5+ p)");
    size.next_option();
    assert_eq!(size, PresetBoardSizes::Small);
    assert_eq!(size.display_text(), "Small (2p)");
    size.previous_option();
    assert_eq!(size, PresetBoardSizes::Large);
    size.previous_option();
    size.previous_option();
    assert_eq!(size, PresetBoardSizes::Small);
    for start in [PresetBoardSizes::Small, PresetBoardSizes::Regular, PresetBoardSizes::Large] {
        let mut s = start;
        s.next_option();
        s.previous_option();
        assert_eq!(s, start);
    }
}

#[test]
fn board_sizes_have_ring_counts() {
    assert_eq!(BoardSize::Small.ring_count(), 3);
    assert_eq!(BoardSize::Standard.ring_count(), 4);
    assert_eq!(BoardSize::Large.ring_count(), 6);
    assert_eq!(BoardSize::ExtraLarge.ring_count(), 8);
}
