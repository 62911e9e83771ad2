use rustrl::{GridMap, TileType};

#[test]
fn address_roundtrip_everywhere() {
    let mut rng = rltk::RandomNumberGenerator::seeded(11);
    let map = GridMap::new(&mut rng);
    for y in 0..50 {
        for x in 0..80 {
            let idx = map.xy_idx(x, y);
            let (bx, by) = map.idx_xy(idx);
            assert_eq!((bx, by), (x, y));
        }
    }
}

#[test]
fn generation_deterministic() {
    let mut rng1 = rltk::RandomNumberGenerator::seeded(7);
    let m1 = GridMap::new(&mut rng1);
    let mut rng2 = rltk::RandomNumberGenerator::seeded(7);
    let m2 = GridMap::new(&mut rng2);
    assert_eq!(m1.tiles, m2.tiles);
    assert_eq!(m1.rooms, m2.rooms);
    assert_eq!(m1.width, m2.width);
    assert_eq!(m1.height, m2.height);
}

#[test]
fn generation_differs_across_seeds() {
    let mut rng1 = rltk::RandomNumberGenerator::seeded(7);
    let m1 = GridMap::new(&mut rng1);
    let mut rng2 = rltk::RandomNumberGenerator::seeded(8);
    let m2 = GridMap::new(&mut rng2);
    // Two different seeds giving bit-identical dungeons would be a miracle.
    assert!(m1.tiles != m2.tiles || m1.rooms != m2.rooms);
}

#[test]
fn accepted_rooms_never_overlap() {
    let mut rng = rltk::RandomNumberGenerator::seeded(3);
    let map = GridMap::new(&mut rng);
    assert!(!map.rooms.is_empty());
    assert!(map.rooms.len() <= 30);
    for i in 0..map.rooms.len() {
        for j in 0..map.rooms.len() {
            if i != j {
                assert!(!map.rooms[i].intersect(&map.rooms[j]));
            }
        }
    }
}

#[test]
fn border_is_wall_after_generation() {
    let mut rng = rltk::RandomNumberGenerator::seeded(5);
    let map = GridMap::new(&mut rng);
    for x in 0..80 {
        assert_eq!(map.tiles[map.xy_idx(x, 0)], TileType::Wall);
        assert_eq!(map.tiles[map.xy_idx(x, 49)], TileType::Wall);
    }
    for y in 0..50 {
        assert_eq!(map.tiles[map.xy_idx(0, y)], TileType::Wall);
        assert_eq!(map.tiles[map.xy_idx(79, y)], TileType::Wall);
    }
}

#[test]
fn room_interiors_are_floor() {
    let mut rng = rltk::RandomNumberGenerator::seeded(9);
    let map = GridMap::new(&mut rng);
    for room in map.rooms.iter() {
        for y in room.y1 + 1..=room.y2 {
            for x in room.x1 + 1..=room.x2 {
                assert_eq!(map.tiles[map.xy_idx(x, y)], TileType::Floor);
            }
        }
    }
}

#[test]
fn test_map_has_border_and_open_spawn() {
    let mut rng = rltk::RandomNumberGenerator::seeded(2);
    let map = GridMap::new_map_test(&mut rng);
    assert_eq!(map.width, 80);
    assert_eq!(map.height, 50);
    assert!(map.rooms.is_empty());
    for x in 0..80 {
        assert_eq!(map.tiles[map.xy_idx(x, 0)], TileType::Wall);
        assert_eq!(map.tiles[map.xy_idx(x, 49)], TileType::Wall);
    }
    for y in 0..50 {
        assert_eq!(map.tiles[map.xy_idx(0, y)], TileType::Wall);
        assert_eq!(map.tiles[map.xy_idx(79, y)], TileType::Wall);
    }
    assert_eq!(map.tiles[map.xy_idx(40, 25)], TileType::Floor);
}

#[test]
fn populate_blocked_marks_exactly_walls() {
    let mut rng = rltk::RandomNumberGenerator::seeded(4);
    let mut map = GridMap::new(&mut rng);
    map.populate_blocked();
    for i in 0..map.tiles.len() {
        assert_eq!(map.blocked[i], map.tiles[i] == TileType::Wall);
    }
}

#[test]
fn is_opaque_matches_walls() {
    let mut rng = rltk::RandomNumberGenerator::seeded(6);
    let map = GridMap::new(&mut rng);
    for i in 0..map.tiles.len() {
        assert_eq!(map.is_opaque(i), map.tiles[i] == TileType::Wall);
    }
}

fn open_arena(width: i32, height: i32) -> GridMap {
    let n = (width * height) as usize;
    let mut tiles = Vec::new();
    for i in 0..n {
        let x = (i as i32) % width;
        let y = (i as i32) / width;
        let t = if x == 0 || x == width - 1 || y == 0 || y == height - 1 {
            TileType::Wall
        } else {
            TileType::Floor
        };
        tiles.push(t);
    }
    GridMap {
        rooms: Vec::new(),
        tiles,
        revealed_tiles: vec![false; n],
        visible_tiles: vec![false; n],
        height,
        width,
        blocked: vec![false; n],
    }
}

#[test]
fn exits_of_open_tile_are_four_neighbours() {
    let mut map = open_arena(80, 50);
    map.populate_blocked();
    let idx = map.xy_idx(10, 10);
    let mut exits = map.get_available_exits(idx);
    exits.sort();
    let mut expected = vec![
        map.xy_idx(9, 10),
        map.xy_idx(11, 10),
        map.xy_idx(10, 9),
        map.xy_idx(10, 11),
    ];
    expected.sort();
    assert_eq!(exits, expected);
}

#[test]
fn exits_never_include_border() {
    let mut map = open_arena(80, 50);
    map.populate_blocked();
    let idx = map.xy_idx(1, 1);
    let mut exits = map.get_available_exits(idx);
    exits.sort();
    let mut expected = vec![map.xy_idx(2, 1), map.xy_idx(1, 2)];
    expected.sort();
    assert_eq!(exits, expected);
}

#[test]
fn shortest_path_straight_corridor() {
    let mut map = open_arena(80, 50);
    map.populate_blocked();
    let start = map.xy_idx(1, 1);
    let goal = map.xy_idx(1, 5);
    let path = map.shortest_path(start, goal).expect("open arena is connected");
    assert_eq!(path.len(), 5);
    assert_eq!(path[0], start);
    assert_eq!(path[4], goal);
    assert_eq!(path[1], map.xy_idx(1, 2));
}

#[test]
fn shortest_path_to_self_is_single_tile() {
    let mut map = open_arena(80, 50);
    map.populate_blocked();
    let start = map.xy_idx(10, 10);
    let path = map.shortest_path(start, start).expect("a tile reaches itself");
    assert_eq!(path, vec![start]);
}

#[test]
fn shortest_path_none_when_walled_off() {
    let mut map = open_arena(80, 50);
    // Wall off the tile at (10, 10) from every side.
    for (x, y) in [(9, 10), (11, 10), (10, 9), (10, 11)] {
        let idx = map.xy_idx(x, y);
        map.tiles[idx] = TileType::Wall;
    }
    map.populate_blocked();
    let start = map.xy_idx(10, 10);
    let goal = map.xy_idx(1, 1);
    assert!(map.shortest_path(start, goal).is_none());
}
