use rustrl::{
    field_of_view, try_move_player, BlocksTiles, EntityRecord, GridMap, MapIndexingSystem,
    Monster, MonsterAI, Name, Player, Point, Position, TileType, Viewshed, VisibilitySystem,
};

fn open_arena(width: i32, height: i32) -> GridMap {
    let n = (width * height) as usize;
    let mut tiles = Vec::new();
    for i in 0..n {
        let x = (i as i32) % width;
        let y = (i as i32) / width;
        let t = if x == 0 || x == width - 1 || y == 0 || y == height - 1 {
            TileType::Wall
        } else {
            TileType::Floor
        };
        tiles.push(t);
    }
    GridMap {
        rooms: Vec::new(),
        tiles,
        revealed_tiles: vec![false; n],
        visible_tiles: vec![false; n],
        height,
        width,
        blocked: vec![false; n],
    }
}

fn bare_entity() -> EntityRecord {
    EntityRecord {
        position: None,
        viewshed: None,
        monster: None,
        player: None,
        blocks_tiles: None,
        name: None,
    }
}

fn fresh_viewshed(range: i32) -> Viewshed {
    Viewshed { visible_tiles: Vec::new(), range, dirty: true }
}

#[test]
fn blocked_rebuild_walls_and_blockers() {
    let mut map = open_arena(80, 50);
    let mut blocker = bare_entity();
    blocker.position = Some(Position { x: 7, y: 7 });
    blocker.blocks_tiles = Some(BlocksTiles {});
    let mut positioned_only = bare_entity();
    positioned_only.position = Some(Position { x: 9, y: 9 });
    let entities = vec![blocker, positioned_only];
    let indexing = MapIndexingSystem {};
    indexing.run(&mut map, &entities);
    for y in 0..50 {
        for x in 0..80 {
            let idx = map.xy_idx(x, y);
            let expected = map.tiles[idx] == TileType::Wall || (x, y) == (7, 7);
            assert_eq!(map.blocked[idx], expected);
        }
    }
}

#[test]
fn fov_at_corner_stays_in_bounds() {
    let map = open_arena(80, 50);
    let pts = field_of_view(&map, 1, 1, 8);
    assert!(!pts.is_empty());
    for p in pts.iter() {
        assert!(p.x >= 0 && p.x < 80 && p.y >= 0 && p.y < 50);
    }
}

#[test]
fn fov_sees_through_floor_not_walls() {
    let mut map = open_arena(80, 50);
    // A wall directly east of the origin hides the tile behind it.
    let wall_idx = map.xy_idx(11, 10);
    map.tiles[wall_idx] = TileType::Wall;
    let pts = field_of_view(&map, 10, 10, 8);
    assert!(pts.contains(&Point { x: 10, y: 10 }));
    assert!(pts.contains(&Point { x: 10, y: 14 }));
    // The wall itself is visible; the tile right behind it is not.
    assert!(pts.contains(&Point { x: 11, y: 10 }));
    assert!(!pts.contains(&Point { x: 13, y: 10 }));
}

#[test]
fn visibility_clears_dirty_and_fills_viewshed() {
    let mut map = open_arena(80, 50);
    map.populate_blocked();
    let mut player = bare_entity();
    player.position = Some(Position { x: 10, y: 10 });
    player.viewshed = Some(fresh_viewshed(8));
    player.player = Some(Player {});
    let mut entities = vec![player];
    let vis = VisibilitySystem {};
    vis.run(&mut map, &mut entities);
    let vs = entities[0].viewshed.as_ref().unwrap();
    assert!(!vs.dirty);
    assert!(vs.visible_tiles.contains(&Point { x: 10, y: 10 }));
    let idx = map.xy_idx(10, 10);
    assert!(map.visible_tiles[idx]);
    assert!(map.revealed_tiles[idx]);
}

#[test]
fn dirty_suppression_leaves_viewshed_untouched() {
    let mut map = open_arena(80, 50);
    map.populate_blocked();
    let stale = vec![Point { x: 3, y: 3 }, Point { x: 4, y: 4 }];
    let mut watcher = bare_entity();
    watcher.position = Some(Position { x: 10, y: 10 });
    watcher.viewshed = Some(Viewshed { visible_tiles: stale.clone(), range: 8, dirty: false });
    let mut entities = vec![watcher];
    let vis = VisibilitySystem {};
    vis.run(&mut map, &mut entities);
    let vs = entities[0].viewshed.as_ref().unwrap();
    assert!(!vs.dirty);
    assert_eq!(vs.visible_tiles, stale);
}

#[test]
fn revealed_only_grows_across_recomputations() {
    let mut map = open_arena(80, 50);
    map.populate_blocked();
    let mut player = bare_entity();
    player.position = Some(Position { x: 5, y: 5 });
    player.viewshed = Some(fresh_viewshed(8));
    player.player = Some(Player {});
    let mut entities = vec![player];
    let vis = VisibilitySystem {};
    vis.run(&mut map, &mut entities);
    let revealed_before = map.revealed_tiles.clone();
    assert!(revealed_before.iter().any(|&r| r));
    // The player moves far away and the viewshed goes stale again.
    entities[0].position = Some(Position { x: 60, y: 40 });
    entities[0].viewshed.as_mut().unwrap().dirty = true;
    vis.run(&mut map, &mut entities);
    for i in 0..revealed_before.len() {
        if revealed_before[i] {
            assert!(map.revealed_tiles[i]);
        }
    }
    // The visible set, by contrast, was recomputed from scratch.
    let old_spot = map.xy_idx(5, 5);
    assert!(!map.visible_tiles[old_spot]);
}

#[test]
fn monster_pursues_player_down_corridor() {
    let mut map = open_arena(80, 50);
    map.populate_blocked();
    let mut player = bare_entity();
    player.position = Some(Position { x: 5, y: 1 });
    player.viewshed = Some(fresh_viewshed(8));
    player.player = Some(Player {});
    let mut monster = bare_entity();
    monster.position = Some(Position { x: 5, y: 5 });
    monster.viewshed = Some(fresh_viewshed(8));
    monster.monster = Some(Monster {});
    monster.name = Some(Name { name: "orc".to_string() });
    let mut entities = vec![player, monster];
    let vis = VisibilitySystem {};
    vis.run(&mut map, &mut entities);
    let ai = MonsterAI {};
    let mut rng = rltk::RandomNumberGenerator::seeded(1);
    let idle = vec!["grunts".to_string()];
    let chatter = ai.run(&map, Point { x: 5, y: 1 }, &mut entities, &mut rng, &idle);
    let pos = entities[1].position.unwrap();
    assert_eq!(pos.x, 5);
    assert_eq!(pos.y, 4);
    assert!(entities[1].viewshed.as_ref().unwrap().dirty);
    assert_eq!(chatter.len(), 1);
    assert_eq!(chatter[0].entity, 1);
    assert_eq!(chatter[0].text, "grunts");
    // The player entity was not the monster's business.
    assert_eq!(entities[0].position.unwrap().x, 5);
    assert_eq!(entities[0].position.unwrap().y, 1);
}

#[test]
fn walled_in_monster_stays_put() {
    let mut map = open_arena(80, 50);
    for (x, y) in [(4, 4), (5, 4), (6, 4), (4, 5), (6, 5), (4, 6), (5, 6), (6, 6)] {
        let idx = map.xy_idx(x, y);
        map.tiles[idx] = TileType::Wall;
    }
    map.populate_blocked();
    let mut monster = bare_entity();
    monster.position = Some(Position { x: 5, y: 5 });
    // The monster remembers seeing the player; its viewshed is not stale.
    monster.viewshed = Some(Viewshed {
        visible_tiles: vec![Point { x: 5, y: 1 }],
        range: 8,
        dirty: false,
    });
    monster.monster = Some(Monster {});
    monster.name = Some(Name { name: "goob".to_string() });
    let mut entities = vec![monster];
    let ai = MonsterAI {};
    let mut rng = rltk::RandomNumberGenerator::seeded(1);
    let idle = vec!["shouts at you".to_string()];
    let chatter = ai.run(&map, Point { x: 5, y: 1 }, &mut entities, &mut rng, &idle);
    let pos = entities[0].position.unwrap();
    assert_eq!((pos.x, pos.y), (5, 5));
    assert!(!entities[0].viewshed.as_ref().unwrap().dirty);
    // It still had something to say.
    assert_eq!(chatter.len(), 1);
}

#[test]
fn monster_ignores_unseen_player() {
    let mut map = open_arena(80, 50);
    map.populate_blocked();
    let mut monster = bare_entity();
    monster.position = Some(Position { x: 5, y: 5 });
    monster.viewshed = Some(Viewshed { visible_tiles: Vec::new(), range: 8, dirty: false });
    monster.monster = Some(Monster {});
    monster.name = Some(Name { name: "osha".to_string() });
    let mut entities = vec![monster];
    let ai = MonsterAI {};
    let mut rng = rltk::RandomNumberGenerator::seeded(1);
    let idle = vec!["scratches itself".to_string()];
    let chatter = ai.run(&map, Point { x: 40, y: 25 }, &mut entities, &mut rng, &idle);
    assert!(chatter.is_empty());
    let pos = entities[0].position.unwrap();
    assert_eq!((pos.x, pos.y), (5, 5));
}

#[test]
fn empty_idle_text_means_silence() {
    let mut map = open_arena(80, 50);
    map.populate_blocked();
    let mut monster = bare_entity();
    monster.position = Some(Position { x: 5, y: 5 });
    monster.viewshed = Some(Viewshed {
        visible_tiles: vec![Point { x: 5, y: 1 }],
        range: 8,
        dirty: false,
    });
    monster.monster = Some(Monster {});
    monster.name = Some(Name { name: "gremlin".to_string() });
    let mut entities = vec![monster];
    let ai = MonsterAI {};
    let mut rng = rltk::RandomNumberGenerator::seeded(1);
    let idle: Vec<String> = Vec::new();
    let chatter = ai.run(&map, Point { x: 5, y: 1 }, &mut entities, &mut rng, &idle);
    assert!(chatter.is_empty());
    // The monster still pursued: silence does not stop movement.
    let pos = entities[0].position.unwrap();
    assert_eq!((pos.x, pos.y), (5, 4));
}

#[test]
fn player_move_rejected_by_blocked_tile() {
    let mut map = open_arena(80, 50);
    map.populate_blocked();
    let target = map.xy_idx(5, 4);
    map.blocked[target] = true;
    let mut pos = Position { x: 5, y: 5 };
    let mut viewshed = Viewshed { visible_tiles: Vec::new(), range: 8, dirty: false };
    let mut point = Point { x: 5, y: 5 };
    try_move_player(0, -1, &map, &mut pos, &mut viewshed, &mut point);
    assert_eq!((pos.x, pos.y), (5, 5));
    assert!(!viewshed.dirty);
    assert_eq!((point.x, point.y), (5, 5));
}

#[test]
fn player_move_commits_and_dirties() {
    let mut map = open_arena(80, 50);
    map.populate_blocked();
    let mut pos = Position { x: 5, y: 5 };
    let mut viewshed = Viewshed { visible_tiles: Vec::new(), range: 8, dirty: false };
    let mut point = Point { x: 5, y: 5 };
    try_move_player(1, 0, &map, &mut pos, &mut viewshed, &mut point);
    assert_eq!((pos.x, pos.y), (6, 5));
    assert!(viewshed.dirty);
    assert_eq!((point.x, point.y), (6, 5));
}

#[test]
fn player_move_into_border_wall_rejected() {
    let mut map = open_arena(80, 50);
    map.populate_blocked();
    let mut pos = Position { x: 1, y: 1 };
    let mut viewshed = Viewshed { visible_tiles: Vec::new(), range: 8, dirty: false };
    let mut point = Point { x: 1, y: 1 };
    try_move_player(-1, 0, &map, &mut pos, &mut viewshed, &mut point);
    assert_eq!((pos.x, pos.y), (1, 1));
    assert!(!viewshed.dirty);
}

#[test]
fn corner_viewshed_recomputation_stays_in_bounds() {
    let mut map = open_arena(80, 50);
    map.populate_blocked();
    let mut watcher = bare_entity();
    watcher.position = Some(Position { x: 1, y: 1 });
    watcher.viewshed = Some(fresh_viewshed(8));
    let mut entities = vec![watcher];
    let vis = VisibilitySystem {};
    vis.run(&mut map, &mut entities);
    let vs = entities[0].viewshed.as_ref().unwrap();
    assert!(!vs.visible_tiles.is_empty());
    for p in vs.visible_tiles.iter() {
        assert!(p.x >= 0 && p.x < 80 && p.y >= 0 && p.y < 50);
    }
}
