//! The movement rule the input layer consumes: a move is permitted only onto
//! a non-wall tile, and the resulting coordinate is clamped onto the grid.

use vstd::prelude::*;

use crate::dungeon::{DungeonMap, TileType};

verus! {

/// `v` clamped into the inclusive range `[lo, hi]`.
pub open spec fn clamp_spec(v: int, lo: int, hi: int) -> int {
    if v < lo {
        lo
    } else if v > hi {
        hi
    } else {
        v
    }
}

/// Applies a signed movement delta to a position. The destination tile is
/// looked up through the index mapping, and the move is permitted only if
/// that tile is not a wall; the permitted coordinate is then clamped into
/// `[0, width-1] x [0, height-1]`. The wall check and the clamp are
/// independent guards: a rejected move leaves the position unchanged.
pub fn try_move_player(map: &DungeonMap, x: i32, y: i32, delta_x: i32, delta_y: i32) -> (p: (
    i32,
    i32,
))
    requires
        map.wf(),
        map.on_grid(x + delta_x, y + delta_y),
    ensures
        map.tile_at(x + delta_x, y + delta_y) != TileType::Wall ==> p.0 == clamp_spec(
            x + delta_x,
            0,
            map.width - 1,
        ) && p.1 == clamp_spec(y + delta_y, 0, map.height - 1),
        map.tile_at(x + delta_x, y + delta_y) == TileType::Wall ==> p.0 == x && p.1 == y,
{
    let x_bound = map.width - 1;
    let y_bound = map.height - 1;
    let nx = x + delta_x;
    let ny = y + delta_y;
    let destination = map.map_xy_to_index(nx, ny);

    if map.tiles[destination] != TileType::Wall {
        let cx = if nx < 0 {
            0
        } else if nx > x_bound {
            x_bound
        } else {
            nx
        };
        let cy = if ny < 0 {
            0
        } else if ny > y_bound {
            y_bound
        } else {
            ny
        };
        (cx, cy)
    } else {
        (x, y)
    }
}

} // verus!
