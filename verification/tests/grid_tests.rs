use abyss_map::dungeon::{DungeonMap, TileType, MAP_MAX_HEIGHT, MAP_MAX_WIDTH, MAP_TILE_COUNT};
use abyss_map::grid::decode_index;

fn blank_map() -> DungeonMap {
    DungeonMap {
        tiles: vec![TileType::Wall; MAP_TILE_COUNT],
        rooms: Vec::new(),
        width: MAP_MAX_WIDTH,
        height: MAP_MAX_HEIGHT,
    }
}

#[test]
fn index_round_trip_covers_grid() {
    let map = blank_map();
    for y in 0..MAP_MAX_HEIGHT {
        for x in 0..MAP_MAX_WIDTH {
            let i = map.map_xy_to_index(x, y);
            assert_eq!(i, (y as usize) * (MAP_MAX_WIDTH as usize) + (x as usize));
            let (dx, dy) = decode_index(MAP_MAX_WIDTH as usize, i);
            assert_eq!(dx, x as usize);
            assert_eq!(dy, y as usize);
        }
    }
}

#[test]
fn traversal_in_index_order_is_row_major() {
    // Re-derive (x, y) by the wrap-on-width rule while scanning the buffer in
    // index order, and check it visits every coordinate exactly once.
    let map = blank_map();
    let width = MAP_MAX_WIDTH as usize;
    let mut x = 0usize;
    let mut y = 0usize;
    let mut visited = vec![false; MAP_TILE_COUNT];
    for i in 0..map.tiles.len() {
        let (dx, dy) = decode_index(width, i);
        assert_eq!((dx, dy), (x, y));
        let slot = y * width + x;
        assert!(!visited[slot]);
        visited[slot] = true;
        x += 1;
        if x > width - 1 {
            x = 0;
            y += 1;
        }
    }
    assert!(visited.iter().all(|v| *v));
}

#[test]
fn decode_index_examples() {
    assert_eq!(decode_index(160, 0), (0, 0));
    assert_eq!(decode_index(160, 159), (159, 0));
    assert_eq!(decode_index(160, 160), (0, 1));
    assert_eq!(decode_index(160, 12799), (159, 79));
}
