use core_game_logic::tile_mapping::{tiles_on_board, valid_neighbours, HexVector2d, TileId, TileIdServer};

#[test]
fn tile_conversions() {
    for id in 0..10000 {
        let start_id = id;

        let end_id: u32 = HexVector2d::from_tile_index(start_id).to_tile_index();

        assert_eq!(
            start_id, end_id,
            "Fail. Started with id {start_id:?}, ended with {end_id:?}"
        );
    }
}

#[test]
fn test_adjacencies() {
    for id in 0..61 {
        let northern_adjaceny: u32 = HexVector2d::from_tile_index(id)
            .plus(HexVector2d::north())
            .to_tile_index();
        println!("The tile north of {id} is {}", northern_adjaceny);
    }
}

#[test]
fn north_of_the_first_tiles() {
    let north = |id: u32| {
        HexVector2d::from_tile_index(id)
            .plus(HexVector2d::north())
            .to_tile_index()
    };
    // tile 1 lies directly beneath the origin, so the origin lies north of it
    assert_eq!(north(1), 0);
    assert_eq!(north(0), 4);
    assert_eq!(north(4), 13);
    // the tile directly north of tile 35 is tile 17
    assert_eq!(north(35), 17);
}

#[test]
fn vectors_of_the_first_ring() {
    assert_eq!(HexVector2d::from_tile_index(0).to_tile_index(), 0);
    // ids of ring one, starting beneath the origin, counter clockwise
    let expected = [(-1, 0), (-1, 1), (0, 1), (1, 0), (1, -1), (0, -1)];
    for (step, (a, b)) in expected.iter().enumerate() {
        let id = 1 + step as u32;
        assert_eq!(HexVector2d::new(*a, *b).to_tile_index(), id);
    }
    // the first tile of ring two lies two steps south of the origin
    assert_eq!(HexVector2d::new(-2, 0).to_tile_index(), 7);
    assert_eq!(HexVector2d::new(-1, -1).to_tile_index(), 18);
}

#[test]
fn vector_round_trip() {
    for a in -20..=20 {
        for b in -20..=20 {
            let id = HexVector2d::new(a, b).to_tile_index();
            let back = HexVector2d::from_tile_index(id).to_tile_index();
            assert_eq!(id, back);
            let again = HexVector2d::from_tile_index(id);
            assert_eq!(again.minus(HexVector2d::new(a, b)).to_tile_index(), 0);
        }
    }
}

#[test]
fn board_sizes() {
    assert_eq!(tiles_on_board(0), 1);
    assert_eq!(tiles_on_board(1), 7);
    assert_eq!(tiles_on_board(4), 61);
}

#[test]
fn tile_ids_on_the_board() {
    let server = TileIdServer { total_tiles_on_board: 7 };
    assert_eq!(server.construct_tile_id(6).unwrap(), TileId(6));
    assert!(server.construct_tile_id(7).is_err());
    assert_eq!(HexVector2d::new(2, 0).to_valid_tile_id(&server), None);
    assert_eq!(HexVector2d::new(1, 0).to_valid_tile_id(&server), Some(TileId(4)));
}

#[test]
fn neighbours_of_the_origin_and_an_edge_tile() {
    let server = TileIdServer { total_tiles_on_board: 7 };
    let mut around_origin = valid_neighbours(TileId(0), &server);
    around_origin.sort();
    assert_eq!(around_origin, (1..7).map(TileId).collect::<Vec<_>>());
    let mut around_one = valid_neighbours(TileId(1), &server);
    around_one.sort();
    assert_eq!(around_one, vec![TileId(0), TileId(2), TileId(6)]);
}

#[test]
fn a_board_holds_the_tiles_within_its_rings() {
    for rings in 0..6u32 {
        for id in 0..200u32 {
            let distance = HexVector2d::from_tile_index(id).distance_from_origin();
            assert_eq!(id < tiles_on_board(rings), distance <= rings as u64, "id {id}, rings {rings}");
        }
    }
}
