use abyss_map::dungeon::{
    DungeonMap, TileType, MAP_MAX_HEIGHT, MAP_MAX_WIDTH, MAP_TILE_COUNT, MAX_ROOMS,
    MAX_ROOM_SIZE, MIN_ROOM_SIZE,
};
use abyss_map::player::try_move_player;
use rltk::RandomNumberGenerator;

fn index(x: i32, y: i32) -> usize {
    (y as usize) * (MAP_MAX_WIDTH as usize) + (x as usize)
}

#[test]
fn generated_map_has_full_tile_buffer() {
    let mut rng = RandomNumberGenerator::seeded(7);
    let map = DungeonMap::generate(&mut rng);
    assert_eq!(map.width, MAP_MAX_WIDTH);
    assert_eq!(map.height, MAP_MAX_HEIGHT);
    assert_eq!(map.tiles.len(), MAP_TILE_COUNT);
    assert_eq!(
        map.tiles.len(),
        (MAP_MAX_WIDTH as usize) * (MAP_MAX_HEIGHT as usize)
    );
}

#[test]
fn generated_rooms_are_in_bounds_and_sized() {
    let mut rng = RandomNumberGenerator::seeded(7);
    let map = DungeonMap::generate(&mut rng);
    assert!(map.rooms.len() >= 1);
    assert!(map.rooms.len() <= MAX_ROOMS as usize);
    for r in map.rooms.iter() {
        assert!(0 <= r.x1 && r.x1 < r.x2 && r.x2 <= MAP_MAX_WIDTH);
        assert!(0 <= r.y1 && r.y1 < r.y2 && r.y2 <= MAP_MAX_HEIGHT);
        // Side lengths come from the uniform draw over the room-size range.
        assert!(r.x2 - r.x1 >= MIN_ROOM_SIZE && r.x2 - r.x1 < MAX_ROOM_SIZE);
        assert!(r.y2 - r.y1 >= MIN_ROOM_SIZE && r.y2 - r.y1 < MAX_ROOM_SIZE);
    }
}

#[test]
fn generated_rooms_do_not_overlap() {
    for seed in [1u64, 7, 42, 2024] {
        let mut rng = RandomNumberGenerator::seeded(seed);
        let map = DungeonMap::generate(&mut rng);
        for i in 0..map.rooms.len() {
            for j in 0..map.rooms.len() {
                if i != j {
                    assert!(!map.rooms[i].does_intersect(&map.rooms[j]));
                }
            }
        }
    }
}

#[test]
fn room_interiors_are_floor() {
    let mut rng = RandomNumberGenerator::seeded(11);
    let map = DungeonMap::generate(&mut rng);
    for r in map.rooms.iter() {
        for y in (r.y1 + 1)..=r.y2 {
            for x in (r.x1 + 1)..=r.x2 {
                assert_eq!(map.tiles[index(x, y)], TileType::Floor);
            }
        }
    }
}

#[test]
fn dungeon_is_fully_connected() {
    // Every accepted room's center must be floor and reachable from the
    // first room's center over floor tiles, the last room's in particular.
    let mut rng = RandomNumberGenerator::seeded(3);
    let map = DungeonMap::generate(&mut rng);
    assert!(map.rooms.len() >= 2);

    for r in map.rooms.iter() {
        let (cx, cy) = r.center();
        assert_eq!(map.tiles[index(cx, cy)], TileType::Floor);
    }

    let start = map.rooms[0].center();
    let mut reached = vec![false; MAP_TILE_COUNT];
    let mut stack = vec![index(start.0, start.1)];
    reached[index(start.0, start.1)] = true;
    while let Some(i) = stack.pop() {
        let x = (i % (MAP_MAX_WIDTH as usize)) as i32;
        let y = (i / (MAP_MAX_WIDTH as usize)) as i32;
        for (dx, dy) in [(-1, 0), (1, 0), (0, -1), (0, 1)] {
            let (nx, ny) = (x + dx, y + dy);
            if 0 <= nx && nx < MAP_MAX_WIDTH && 0 <= ny && ny < MAP_MAX_HEIGHT {
                let ni = index(nx, ny);
                if !reached[ni] && map.tiles[ni] == TileType::Floor {
                    reached[ni] = true;
                    stack.push(ni);
                }
            }
        }
    }
    for r in map.rooms.iter() {
        let (cx, cy) = r.center();
        assert!(reached[index(cx, cy)]);
    }
    let last = map.rooms[map.rooms.len() - 1].center();
    assert!(reached[index(last.0, last.1)]);
}

#[test]
fn every_floor_is_room_or_corridor() {
    let mut rng = RandomNumberGenerator::seeded(13);
    let map = DungeonMap::generate(&mut rng);
    let on_h = |xa: i32, xb: i32, yy: i32, px: i32, py: i32| {
        py == yy && ((xa <= px && px <= xb) || (xb <= px && px <= xa))
    };
    let on_v = |ya: i32, yb: i32, xx: i32, px: i32, py: i32| {
        px == xx && ((ya <= py && py <= yb) || (yb <= py && py <= ya))
    };
    for y in 0..MAP_MAX_HEIGHT {
        for x in 0..MAP_MAX_WIDTH {
            if map.tiles[index(x, y)] == TileType::Floor {
                let in_room = map
                    .rooms
                    .iter()
                    .any(|r| r.x1 < x && x <= r.x2 && r.y1 < y && y <= r.y2);
                let on_corridor = (1..map.rooms.len()).any(|j| {
                    let c1 = map.rooms[j - 1].center();
                    let c2 = map.rooms[j].center();
                    on_h(c1.0, c2.0, c1.1, x, y)
                        || on_v(c1.1, c2.1, c2.0, x, y)
                        || on_v(c1.1, c2.1, c1.0, x, y)
                        || on_h(c1.0, c2.0, c2.1, x, y)
                });
                assert!(in_room || on_corridor);
            }
        }
    }
}

#[test]
fn single_room_budget_carves_exactly_that_room() {
    let mut rng = RandomNumberGenerator::seeded(5);
    let map = DungeonMap::generate_with(&mut rng, 1);
    assert_eq!(map.rooms.len(), 1);
    let r = &map.rooms[0];
    for y in 0..MAP_MAX_HEIGHT {
        for x in 0..MAP_MAX_WIDTH {
            let inside = r.x1 < x && x <= r.x2 && r.y1 < y && y <= r.y2;
            let expected = if inside { TileType::Floor } else { TileType::Wall };
            assert_eq!(map.tiles[index(x, y)], expected);
        }
    }
}

#[test]
fn zero_budget_yields_all_walls_and_no_spawn() {
    let mut rng = RandomNumberGenerator::seeded(9);
    let map = DungeonMap::generate_with(&mut rng, 0);
    assert_eq!(map.rooms.len(), 0);
    assert!(map.tiles.iter().all(|t| *t == TileType::Wall));
    assert_eq!(map.spawn_point(), None);
}

#[test]
fn spawn_point_is_first_room_center() {
    let mut rng = RandomNumberGenerator::seeded(21);
    let map = DungeonMap::generate(&mut rng);
    assert!(map.rooms.len() >= 1);
    assert_eq!(map.spawn_point(), Some(map.rooms[0].center()));
}

#[test]
fn move_onto_floor_is_permitted() {
    let mut map = DungeonMap {
        tiles: vec![TileType::Wall; MAP_TILE_COUNT],
        rooms: Vec::new(),
        width: MAP_MAX_WIDTH,
        height: MAP_MAX_HEIGHT,
    };
    map.tiles[index(10, 10)] = TileType::Floor;
    map.tiles[index(11, 10)] = TileType::Floor;
    assert_eq!(try_move_player(&map, 10, 10, 1, 0), (11, 10));
}

#[test]
fn move_into_wall_is_rejected() {
    let mut map = DungeonMap {
        tiles: vec![TileType::Wall; MAP_TILE_COUNT],
        rooms: Vec::new(),
        width: MAP_MAX_WIDTH,
        height: MAP_MAX_HEIGHT,
    };
    map.tiles[index(10, 10)] = TileType::Floor;
    assert_eq!(try_move_player(&map, 10, 10, 0, 1), (10, 10));
    assert_eq!(try_move_player(&map, 10, 10, -1, 0), (10, 10));
}

#[test]
fn permitted_move_is_clamped_onto_grid() {
    let mut map = DungeonMap {
        tiles: vec![TileType::Floor; MAP_TILE_COUNT],
        rooms: Vec::new(),
        width: MAP_MAX_WIDTH,
        height: MAP_MAX_HEIGHT,
    };
    map.tiles[0] = TileType::Floor;
    assert_eq!(try_move_player(&map, 0, 0, 1, 1), (1, 1));
    assert_eq!(
        try_move_player(&map, MAP_MAX_WIDTH - 2, 5, 1, 0),
        (MAP_MAX_WIDTH - 1, 5)
    );
}

#[test]
fn different_seeds_vary_room_positions() {
    // A degenerate generator that ignored its random source would place the
    // same first room for every seed.
    let mut seen = Vec::new();
    for seed in 0u64..8 {
        let mut rng = RandomNumberGenerator::seeded(seed);
        let map = DungeonMap::generate(&mut rng);
        assert!(map.rooms.len() >= 1);
        let r = &map.rooms[0];
        seen.push((r.x1, r.y1, r.x2, r.y2));
    }
    let first = seen[0];
    assert!(seen.iter().any(|s| *s != first));
}
