//! The tile-grid data model and the randomized placement-and-connection
//! algorithm: rooms are sampled, colliding candidates rejected, accepted
//! rooms carved into the buffer and joined by L-shaped corridors.

use vstd::prelude::*;

use crate::connect::{
    connected, floors_kept, lemma_connected_kept, lemma_connected_trans, lemma_h_run_connected,
    lemma_v_run_connected,
};
use crate::grid::{grid_index, in_grid, lemma_grid_index_bounds, lemma_grid_index_injective};
use crate::rect::{lemma_center_in_interior, lemma_intersect_symmetric, Rect};
use crate::rng::{rng_range, rng_roll_dice};

verus! {

pub const MAP_MAX_WIDTH: i32 = 160;

pub const MAP_MAX_HEIGHT: i32 = 80;

/// Length of the flat tile buffer, `MAP_MAX_WIDTH * MAP_MAX_HEIGHT`.
pub const MAP_TILE_COUNT: usize = 160 * 80;

pub const MAX_ROOMS: i32 = 30;

pub const MIN_ROOM_SIZE: i32 = 10;

pub const MAX_ROOM_SIZE: i32 = 15;

#[derive(PartialEq, Eq, Structural, Copy, Clone, Debug)]
pub enum TileType {
    Wall,
    Floor,
}

/// A horizontal one-tile-wide run at row `y`, spanning the inclusive range
/// between `xa` and `xb` in either order.
pub open spec fn on_h_segment(xa: int, xb: int, y: int, px: int, py: int) -> bool {
    py == y && (xa <= px <= xb || xb <= px <= xa)
}

/// A vertical one-tile-wide run at column `x`, spanning the inclusive range
/// between `ya` and `yb` in either order.
pub open spec fn on_v_segment(ya: int, yb: int, x: int, px: int, py: int) -> bool {
    px == x && (ya <= py <= yb || yb <= py <= ya)
}

/// The cells of an L-shaped corridor joining the centers `c1` and `c2`, in
/// either of the two orientations the generator's coin flip may pick.
pub open spec fn on_l_corridor(c1: (int, int), c2: (int, int), px: int, py: int) -> bool {
    ||| on_h_segment(c1.0, c2.0, c1.1, px, py)
    ||| on_v_segment(c1.1, c2.1, c2.0, px, py)
    ||| on_v_segment(c1.1, c2.1, c1.0, px, py)
    ||| on_h_segment(c1.0, c2.0, c2.1, px, py)
}

/// The boundary-safety guard corridor carving applies to each visited cell:
/// the flat index must lie strictly inside `(0, width * height)`.
pub open spec fn carve_guard(width: int, height: int, x: int, y: int) -> bool {
    0 < grid_index(width, x, y) < width * height
}

/// A floor cell is accounted for by the generator: it lies in an accepted
/// room's interior, or on the L-corridor joining the centers of two
/// consecutively accepted rooms, where the boundary guard admits carving.
pub open spec fn floor_justified(
    rooms: Seq<Rect>,
    width: int,
    height: int,
    px: int,
    py: int,
) -> bool {
    ||| exists|i: int| 0 <= i < rooms.len() && (#[trigger] rooms[i]).contains_interior(px, py)
    ||| exists|i: int|
        1 <= i < rooms.len() && on_l_corridor(
            rooms[i - 1].center_spec(),
            (#[trigger] rooms[i]).center_spec(),
            px,
            py,
        ) && carve_guard(width, height, px, py)
}

/// Accepting one more room never orphans a floor cell: whatever justified it
/// before still justifies it in the extended room list.
proof fn lemma_floor_justified_push(
    rooms: Seq<Rect>,
    r: Rect,
    width: int,
    height: int,
    px: int,
    py: int,
)
    requires
        floor_justified(rooms, width, height, px, py),
    ensures
        floor_justified(rooms.push(r), width, height, px, py),
{
    if exists|i: int| 0 <= i < rooms.len() && (#[trigger] rooms[i]).contains_interior(px, py) {
        let i = choose|i: int|
            0 <= i < rooms.len() && (#[trigger] rooms[i]).contains_interior(px, py);
        assert(rooms.push(r)[i] == rooms[i]);
        assert((rooms.push(r)[i]).contains_interior(px, py));
    } else {
        let i = choose|i: int|
            1 <= i < rooms.len() && on_l_corridor(
                rooms[i - 1].center_spec(),
                (#[trigger] rooms[i]).center_spec(),
                px,
                py,
            ) && carve_guard(width, height, px, py);
        assert(rooms.push(r)[i] == rooms[i]);
        assert(rooms.push(r)[i - 1] == rooms[i - 1]);
        assert(on_l_corridor(
            rooms.push(r)[i - 1].center_spec(),
            (rooms.push(r)[i]).center_spec(),
            px,
            py,
        ));
    }
}

pub struct DungeonMap {
    pub tiles: Vec<TileType>,
    pub rooms: Vec<Rect>,
    pub width: i32,
    pub height: i32,
}

impl DungeonMap {
    /// The map's invariant: the grid has the fixed dimensions and the flat
    /// buffer holds exactly one tile per cell.
    pub open spec fn wf(self) -> bool {
        &&& self.width == MAP_MAX_WIDTH
        &&& self.height == MAP_MAX_HEIGHT
        &&& self.tiles@.len() == MAP_TILE_COUNT
    }

    /// The tile of cell `(x, y)`, through the row-major index mapping.
    pub open spec fn tile_at(self, x: int, y: int) -> TileType {
        self.tiles@[grid_index(self.width as int, x, y)]
    }

    pub open spec fn on_grid(self, x: int, y: int) -> bool {
        in_grid(self.width as int, self.height as int, x, y)
    }

    /// The room sits on the grid with its carved cells strictly inside it.
    pub open spec fn room_in_bounds(self, r: Rect) -> bool {
        0 <= r.x1 && r.x2 < self.width && 0 <= r.y1 && r.y2 < self.height
    }

    /// Every accepted room is non-empty, in bounds, and no two accepted
    /// rooms intersect (closed-interval test, so they never even touch).
    pub open spec fn rooms_ok(self) -> bool {
        &&& forall|i: int|
            0 <= i < self.rooms@.len() ==> (#[trigger] self.rooms@[i]).wf() && self.room_in_bounds(
                self.rooms@[i],
            )
        &&& forall|i: int, j: int|
            0 <= i < j < self.rooms@.len() ==> !(#[trigger] self.rooms@[i].intersects(
                self.rooms@[j],
            ))
    }

    /// Every accepted room's side lengths come from the sampled size range.
    pub open spec fn rooms_sized(self) -> bool {
        forall|i: int|
            0 <= i < self.rooms@.len() ==> MIN_ROOM_SIZE <= (#[trigger] self.rooms@[i]).x2
                - self.rooms@[i].x1 < MAX_ROOM_SIZE && MIN_ROOM_SIZE <= self.rooms@[i].y2
                - self.rooms@[i].y1 < MAX_ROOM_SIZE
    }

    /// Every accepted room's interior has been carved to floor.
    pub open spec fn rooms_carved(self) -> bool {
        forall|i: int, x: int, y: int|
            0 <= i < self.rooms@.len() && (#[trigger] self.rooms@[i].contains_interior(x, y))
                ==> self.tile_at(x, y) == TileType::Floor
    }

    /// Every floor cell is accounted for by a room interior or a corridor.
    pub open spec fn floors_justified(self) -> bool {
        forall|x: int, y: int|
            self.on_grid(x, y) && (#[trigger] self.tile_at(x, y)) == TileType::Floor
                ==> floor_justified(self.rooms@, self.width as int, self.height as int, x, y)
    }

    /// While at most one room has been accepted no corridor exists yet, so
    /// the floor cells are exactly that room's interior.
    pub open spec fn single_room_exact(self) -> bool {
        self.rooms@.len() <= 1 ==> forall|x: int, y: int|
            self.on_grid(x, y) ==> ((#[trigger] self.tile_at(x, y)) == TileType::Floor <==> (
            self.rooms@.len() == 1 && self.rooms@[0].contains_interior(x, y)))
    }

    /// Each accepted room's center is joined to the previously accepted
    /// room's center by a walk over floor tiles.
    pub open spec fn centers_connected(self) -> bool {
        forall|j: int|
            1 <= j < self.rooms@.len() ==> connected(
                self,
                self.rooms@[j - 1].center_spec(),
                (#[trigger] self.rooms@[j]).center_spec(),
            )
    }

    /// Converts a point of a 2D structure to a single index for a 1D
    /// structure.
    pub fn map_xy_to_index(&self, x: i32, y: i32) -> (index: usize)
        requires
            self.wf(),
            self.on_grid(x as int, y as int),
        ensures
            index == grid_index(self.width as int, x as int, y as int),
            index < self.tiles@.len(),
    {
        proof {
            lemma_grid_index_bounds(self.width as int, self.height as int, x as int, y as int);
        }
        (y as usize * self.width as usize) + x as usize
    }

    /// An all-wall map of the fixed dimensions with no rooms.
    fn blank() -> (m: DungeonMap)
        ensures
            m.wf(),
            m.rooms@.len() == 0,
            forall|x: int, y: int|
                m.on_grid(x, y) ==> (#[trigger] m.tile_at(x, y)) == TileType::Wall,
    {
        let mut tiles: Vec<TileType> = Vec::new();
        let mut k: usize = 0;
        while k < MAP_TILE_COUNT
            invariant
                tiles@.len() == k,
                k <= MAP_TILE_COUNT,
                forall|i: int| 0 <= i < k ==> tiles@[i] == TileType::Wall,
            decreases MAP_TILE_COUNT - k,
        {
            tiles.push(TileType::Wall);
            k += 1;
        }
        let m = DungeonMap {
            tiles,
            rooms: Vec::new(),
            width: MAP_MAX_WIDTH,
            height: MAP_MAX_HEIGHT,
        };
        proof {
            assert forall|x: int, y: int| m.on_grid(x, y) implies (#[trigger] m.tile_at(x, y))
                == TileType::Wall by {
                lemma_grid_index_bounds(m.width as int, m.height as int, x, y);
            }
        }
        m
    }

    /// Carves the room's interior to floor: every cell of `(x1, x2] x
    /// (y1, y2]`. The open lower bounds leave the row `y1` and the column
    /// `x1` as an implicit wall border.
    fn add_room_to_map(&mut self, room: &Rect)
        requires
            old(self).wf(),
            room.wf(),
            old(self).room_in_bounds(*room),
        ensures
            final(self).wf(),
            final(self).rooms@ == old(self).rooms@,
            forall|x: int, y: int|
                old(self).on_grid(x, y) ==> (#[trigger] final(self).tile_at(x, y)) == (
                if room.contains_interior(x, y) {
                    TileType::Floor
                } else {
                    old(self).tile_at(x, y)
                }),
    {
        let mut y = room.y1 + 1;
        while y <= room.y2
            invariant
                old(self).wf(),
                self.wf(),
                self.rooms@ == old(self).rooms@,
                room.wf(),
                old(self).room_in_bounds(*room),
                room.y1 + 1 <= y <= room.y2 + 1,
                forall|px: int, py: int|
                    old(self).on_grid(px, py) ==> (#[trigger] self.tile_at(px, py)) == (
                    if room.x1 < px <= room.x2 && room.y1 < py < y {
                        TileType::Floor
                    } else {
                        old(self).tile_at(px, py)
                    }),
            decreases room.y2 + 1 - y,
        {
            let mut x = room.x1 + 1;
            while x <= room.x2
                invariant
                    old(self).wf(),
                    self.wf(),
                    self.rooms@ == old(self).rooms@,
                    room.wf(),
                    old(self).room_in_bounds(*room),
                    room.y1 + 1 <= y <= room.y2,
                    room.x1 + 1 <= x <= room.x2 + 1,
                    forall|px: int, py: int|
                        old(self).on_grid(px, py) ==> (#[trigger] self.tile_at(px, py)) == (
                        if (room.x1 < px <= room.x2 && room.y1 < py < y) || (py == y && room.x1
                            < px < x) {
                            TileType::Floor
                        } else {
                            old(self).tile_at(px, py)
                        }),
                decreases room.x2 + 1 - x,
            {
                let index = self.map_xy_to_index(x, y);
                let ghost prev = *self;
                self.tiles.set(index, TileType::Floor);
                proof {
                    assert forall|px: int, py: int|
                        old(self).on_grid(px, py) implies (#[trigger] self.tile_at(px, py)) == (
                    if (room.x1 < px <= room.x2 && room.y1 < py < y) || (py == y && room.x1 < px
                        < x + 1) {
                        TileType::Floor
                    } else {
                        old(self).tile_at(px, py)
                    }) by {
                        lemma_grid_index_bounds(prev.width as int, prev.height as int, px, py);
                        if grid_index(prev.width as int, px, py) == index as int {
                            lemma_grid_index_injective(
                                prev.width as int,
                                prev.height as int,
                                px,
                                py,
                                x as int,
                                y as int,
                            );
                        } else {
                            assert(self.tile_at(px, py) == prev.tile_at(px, py));
                        }
                    }
                }
                x += 1;
            }
            y += 1;
        }
    }

    /// Carves a horizontal corridor at row `y` over the inclusive range
    /// between `x1` and `x2`, skipping any cell the boundary guard refuses.
    fn add_horizontal_corridor(&mut self, x1: i32, x2: i32, y: i32)
        requires
            old(self).wf(),
            0 <= x1 < old(self).width,
            0 <= x2 < old(self).width,
            0 <= y < old(self).height,
        ensures
            final(self).wf(),
            final(self).rooms@ == old(self).rooms@,
            forall|px: int, py: int|
                old(self).on_grid(px, py) ==> (#[trigger] final(self).tile_at(px, py)) == (
                if on_h_segment(x1 as int, x2 as int, y as int, px, py) && carve_guard(
                    old(self).width as int,
                    old(self).height as int,
                    px,
                    py,
                ) {
                    TileType::Floor
                } else {
                    old(self).tile_at(px, py)
                }),
    {
        let lo = if x1 < x2 {
            x1
        } else {
            x2
        };
        let hi = if x1 < x2 {
            x2
        } else {
            x1
        };
        let mut x = lo;
        while x <= hi
            invariant
                old(self).wf(),
                self.wf(),
                self.rooms@ == old(self).rooms@,
                lo <= x <= hi + 1,
                lo == if x1 < x2 { x1 } else { x2 },
                hi == if x1 < x2 { x2 } else { x1 },
                0 <= lo <= hi < old(self).width,
                0 <= y < old(self).height,
                forall|px: int, py: int|
                    old(self).on_grid(px, py) ==> (#[trigger] self.tile_at(px, py)) == (
                    if py == y && lo <= px < x && carve_guard(
                        old(self).width as int,
                        old(self).height as int,
                        px,
                        py,
                    ) {
                        TileType::Floor
                    } else {
                        old(self).tile_at(px, py)
                    }),
            decreases hi + 1 - x,
        {
            let index = self.map_xy_to_index(x, y);
            let ghost prev = *self;
            if index > 0 && index < MAP_TILE_COUNT {
                self.tiles.set(index, TileType::Floor);
            }
            proof {
                assert forall|px: int, py: int|
                    old(self).on_grid(px, py) implies (#[trigger] self.tile_at(px, py)) == (
                if py == y && lo <= px < x + 1 && carve_guard(
                    old(self).width as int,
                    old(self).height as int,
                    px,
                    py,
                ) {
                    TileType::Floor
                } else {
                    old(self).tile_at(px, py)
                }) by {
                    lemma_grid_index_bounds(prev.width as int, prev.height as int, px, py);
                    if grid_index(prev.width as int, px, py) == index as int {
                        lemma_grid_index_injective(
                            prev.width as int,
                            prev.height as int,
                            px,
                            py,
                            x as int,
                            y as int,
                        );
                    } else {
                        assert(self.tile_at(px, py) == prev.tile_at(px, py));
                    }
                }
            }
            x += 1;
        }
    }

    /// Carves a vertical corridor at column `x` over the inclusive range
    /// between `y1` and `y2`, skipping any cell the boundary guard refuses.
    fn add_vertical_corridor(&mut self, y1: i32, y2: i32, x: i32)
        requires
            old(self).wf(),
            0 <= y1 < old(self).height,
            0 <= y2 < old(self).height,
            0 <= x < old(self).width,
        ensures
            final(self).wf(),
            final(self).rooms@ == old(self).rooms@,
            forall|px: int, py: int|
                old(self).on_grid(px, py) ==> (#[trigger] final(self).tile_at(px, py)) == (
                if on_v_segment(y1 as int, y2 as int, x as int, px, py) && carve_guard(
                    old(self).width as int,
                    old(self).height as int,
                    px,
                    py,
                ) {
                    TileType::Floor
                } else {
                    old(self).tile_at(px, py)
                }),
    {
        let lo = if y1 < y2 {
            y1
        } else {
            y2
        };
        let hi = if y1 < y2 {
            y2
        } else {
            y1
        };
        let mut y = lo;
        while y <= hi
            invariant
                old(self).wf(),
                self.wf(),
                self.rooms@ == old(self).rooms@,
                lo <= y <= hi + 1,
                lo == if y1 < y2 { y1 } else { y2 },
                hi == if y1 < y2 { y2 } else { y1 },
                0 <= lo <= hi < old(self).height,
                0 <= x < old(self).width,
                forall|px: int, py: int|
                    old(self).on_grid(px, py) ==> (#[trigger] self.tile_at(px, py)) == (
                    if px == x && lo <= py < y && carve_guard(
                        old(self).width as int,
                        old(self).height as int,
                        px,
                        py,
                    ) {
                        TileType::Floor
                    } else {
                        old(self).tile_at(px, py)
                    }),
            decreases hi + 1 - y,
        {
            let index = self.map_xy_to_index(x, y);
            let ghost prev = *self;
            if index > 0 && index < MAP_TILE_COUNT {
                self.tiles.set(index, TileType::Floor);
            }
            proof {
                assert forall|px: int, py: int|
                    old(self).on_grid(px, py) implies (#[trigger] self.tile_at(px, py)) == (
                if px == x && lo <= py < y + 1 && carve_guard(
                    old(self).width as int,
                    old(self).height as int,
                    px,
                    py,
                ) {
                    TileType::Floor
                } else {
                    old(self).tile_at(px, py)
                }) by {
                    lemma_grid_index_bounds(prev.width as int, prev.height as int, px, py);
                    if grid_index(prev.width as int, px, py) == index as int {
                        lemma_grid_index_injective(
                            prev.width as int,
                            prev.height as int,
                            px,
                            py,
                            x as int,
                            y as int,
                        );
                    } else {
                        assert(self.tile_at(px, py) == prev.tile_at(px, py));
                    }
                }
            }
            y += 1;
        }
    }

    /// Runs the placement-and-connection algorithm with the given attempt
    /// budget. Up to `max_rooms` candidate rooms are sampled; a candidate
    /// that collides with an accepted room or would overrun the grid's
    /// bottom row is rejected; each accepted room is carved to floor and,
    /// from the second one on, joined by an L-shaped corridor (orientation
    /// chosen by a fair coin) to the previously accepted room's center.
    #[verifier::rlimit(100)]
    pub fn generate_with(rng: &mut rltk::RandomNumberGenerator, max_rooms: i32) -> (map:
        DungeonMap)
        requires
            0 <= max_rooms,
        ensures
            map.wf(),
            map.rooms@.len() <= max_rooms,
            map.rooms_ok(),
            map.rooms_sized(),
            map.rooms_carved(),
            map.floors_justified(),
            map.single_room_exact(),
            map.centers_connected(),
    {
        let mut map = Self::blank();
        let mut iter: i32 = 0;
        while iter < max_rooms
            invariant
                map.wf(),
                0 <= iter <= max_rooms,
                map.rooms@.len() <= iter,
                map.rooms_ok(),
                map.rooms_sized(),
                map.rooms_carved(),
                map.floors_justified(),
                map.single_room_exact(),
                map.centers_connected(),
            decreases max_rooms - iter,
        {
            let ghost m0 = map;
            let w = rng_range(rng, MIN_ROOM_SIZE, MAX_ROOM_SIZE);
            let h = rng_range(rng, MIN_ROOM_SIZE, MAX_ROOM_SIZE);
            let x = rng_roll_dice(rng, 1, MAP_MAX_WIDTH - w - 1) - 1;
            let y = rng_roll_dice(rng, 1, MAP_MAX_HEIGHT - w - 1) - 1;

            let room = Rect::new(x, y, w, h);
            let mut ok = true;

            let mut k: usize = 0;
            while k < map.rooms.len()
                invariant
                    k <= map.rooms@.len(),
                    ok ==> forall|j: int|
                        0 <= j < k ==> !room.intersects(#[trigger] map.rooms@[j]),
                decreases map.rooms@.len() - k,
            {
                if room.does_intersect(&map.rooms[k]) {
                    ok = false;
                }
                k += 1;
            }

            // The vertical sampling bound reuses the candidate's horizontal
            // extent, so a tall candidate drawn low can overrun the bottom
            // row; such a candidate is rejected like a colliding one, which
            // keeps every accepted room on the grid.
            if room.y2 > MAP_MAX_HEIGHT - 1 {
                ok = false;
            }

            if ok {
                map.add_room_to_map(&room);
                let ghost m1 = map;
                let ghost c_prev = m0.rooms@[m0.rooms@.len() - 1].center_spec();
                let ghost c_curr = room.center_spec();

                if !map.rooms.is_empty() {
                    let (curr_x, curr_y) = room.center();
                    let last = map.rooms.len() - 1;
                    let prev_rect = map.rooms[last];
                    proof {
                        assert(m0.rooms@[last as int].wf() && m0.room_in_bounds(
                            m0.rooms@[last as int],
                        ));
                    }
                    let (prev_x, prev_y) = prev_rect.center();

                    if rng_range(rng, 0, 2) == 1 {
                        map.add_horizontal_corridor(prev_x, curr_x, prev_y);
                        let ghost m2 = map;
                        map.add_vertical_corridor(prev_y, curr_y, curr_x);
                        proof {
                            assert forall|px: int, py: int| m1.on_grid(px, py) implies ((
                            m1.tile_at(px, py) == TileType::Floor ==> map.tile_at(px, py)
                                == TileType::Floor) && (map.tile_at(px, py) == TileType::Floor
                                ==> m1.tile_at(px, py) == TileType::Floor || (on_l_corridor(
                                c_prev,
                                c_curr,
                                px,
                                py,
                            ) && carve_guard(map.width as int, map.height as int, px, py)))) by {
                                // Naming the intermediate tiles brings both
                                // carves' pointwise contracts into play here.
                                let t2 = m2.tile_at(px, py);
                                let t1 = m1.tile_at(px, py);
                            }
                            // The two carved runs join the centers over
                            // floor tiles: first along the row, then down
                            // the column.
                            assert(m0.rooms@[last as int] == prev_rect);
                            assert(MIN_ROOM_SIZE <= prev_rect.x2 - prev_rect.x1 && MIN_ROOM_SIZE
                                <= prev_rect.y2 - prev_rect.y1);
                            lemma_center_in_interior(prev_rect);
                            lemma_center_in_interior(room);
                            assert forall|px: int|
                                (prev_x as int <= px <= curr_x as int || curr_x as int <= px
                                    <= prev_x as int) implies m2.on_grid(px, prev_y as int) && (
                            #[trigger] m2.tile_at(px, prev_y as int)) == TileType::Floor by {
                                lemma_grid_index_bounds(
                                    m2.width as int,
                                    m2.height as int,
                                    px,
                                    prev_y as int,
                                );
                            }
                            lemma_h_run_connected(
                                m2,
                                prev_x as int,
                                curr_x as int,
                                prev_y as int,
                            );
                            assert(floors_kept(m2, map)) by {
                                assert forall|ax: int, ay: int|
                                    m2.on_grid(ax, ay) && (#[trigger] m2.tile_at(ax, ay))
                                        == TileType::Floor implies map.tile_at(ax, ay)
                                    == TileType::Floor by {}
                            }
                            lemma_connected_kept(
                                m2,
                                map,
                                (prev_x as int, prev_y as int),
                                (curr_x as int, prev_y as int),
                            );
                            assert forall|py: int|
                                (prev_y as int <= py <= curr_y as int || curr_y as int <= py
                                    <= prev_y as int) implies map.on_grid(curr_x as int, py) && (
                            #[trigger] map.tile_at(curr_x as int, py)) == TileType::Floor by {
                                lemma_grid_index_bounds(
                                    map.width as int,
                                    map.height as int,
                                    curr_x as int,
                                    py,
                                );
                            }
                            lemma_v_run_connected(
                                map,
                                prev_y as int,
                                curr_y as int,
                                curr_x as int,
                            );
                            lemma_connected_trans(
                                map,
                                (prev_x as int, prev_y as int),
                                (curr_x as int, prev_y as int),
                                (curr_x as int, curr_y as int),
                            );
                            assert(connected(map, c_prev, c_curr));
                        }
                    } else {
                        map.add_vertical_corridor(prev_y, curr_y, prev_x);
                        let ghost m2 = map;
                        map.add_horizontal_corridor(prev_x, curr_x, curr_y);
                        proof {
                            assert forall|px: int, py: int| m1.on_grid(px, py) implies ((
                            m1.tile_at(px, py) == TileType::Floor ==> map.tile_at(px, py)
                                == TileType::Floor) && (map.tile_at(px, py) == TileType::Floor
                                ==> m1.tile_at(px, py) == TileType::Floor || (on_l_corridor(
                                c_prev,
                                c_curr,
                                px,
                                py,
                            ) && carve_guard(map.width as int, map.height as int, px, py)))) by {
                                // Naming the intermediate tiles brings both
                                // carves' pointwise contracts into play here.
                                let t2 = m2.tile_at(px, py);
                                let t1 = m1.tile_at(px, py);
                            }
                            // The two carved runs join the centers over
                            // floor tiles: first down the column, then along
                            // the row.
                            assert(m0.rooms@[last as int] == prev_rect);
                            assert(MIN_ROOM_SIZE <= prev_rect.x2 - prev_rect.x1 && MIN_ROOM_SIZE
                                <= prev_rect.y2 - prev_rect.y1);
                            lemma_center_in_interior(prev_rect);
                            lemma_center_in_interior(room);
                            assert forall|py: int|
                                (prev_y as int <= py <= curr_y as int || curr_y as int <= py
                                    <= prev_y as int) implies m2.on_grid(prev_x as int, py) && (
                            #[trigger] m2.tile_at(prev_x as int, py)) == TileType::Floor by {
                                lemma_grid_index_bounds(
                                    m2.width as int,
                                    m2.height as int,
                                    prev_x as int,
                                    py,
                                );
                            }
                            lemma_v_run_connected(
                                m2,
                                prev_y as int,
                                curr_y as int,
                                prev_x as int,
                            );
                            assert(floors_kept(m2, map)) by {
                                assert forall|ax: int, ay: int|
                                    m2.on_grid(ax, ay) && (#[trigger] m2.tile_at(ax, ay))
                                        == TileType::Floor implies map.tile_at(ax, ay)
                                    == TileType::Floor by {}
                            }
                            lemma_connected_kept(
                                m2,
                                map,
                                (prev_x as int, prev_y as int),
                                (prev_x as int, curr_y as int),
                            );
                            assert forall|px: int|
                                (prev_x as int <= px <= curr_x as int || curr_x as int <= px
                                    <= prev_x as int) implies map.on_grid(px, curr_y as int) && (
                            #[trigger] map.tile_at(px, curr_y as int)) == TileType::Floor by {
                                lemma_grid_index_bounds(
                                    map.width as int,
                                    map.height as int,
                                    px,
                                    curr_y as int,
                                );
                            }
                            lemma_h_run_connected(
                                map,
                                prev_x as int,
                                curr_x as int,
                                curr_y as int,
                            );
                            lemma_connected_trans(
                                map,
                                (prev_x as int, prev_y as int),
                                (prev_x as int, curr_y as int),
                                (curr_x as int, curr_y as int),
                            );
                            assert(connected(map, c_prev, c_curr));
                        }
                    }
                }

                let ghost m3 = map;
                map.rooms.push(room);

                proof {
                    let rooms0 = m0.rooms@;
                    let newrooms = map.rooms@;
                    let len0 = rooms0.len() as int;
                    assert(newrooms == rooms0.push(room));

                    assert forall|i: int| 0 <= i < newrooms.len() implies (#[trigger] newrooms[i]).wf()
                        && map.room_in_bounds(newrooms[i]) by {
                        if i < len0 {
                            assert(newrooms[i] == rooms0[i]);
                            assert(rooms0[i].wf() && m0.room_in_bounds(rooms0[i]));
                        }
                    }

                    assert forall|i: int|
                        0 <= i < newrooms.len() implies MIN_ROOM_SIZE <= (
                    #[trigger] newrooms[i]).x2 - newrooms[i].x1 < MAX_ROOM_SIZE && MIN_ROOM_SIZE
                        <= newrooms[i].y2 - newrooms[i].y1 < MAX_ROOM_SIZE by {
                        if i < len0 {
                            assert(newrooms[i] == rooms0[i]);
                            assert(m0.rooms_sized());
                            assert(MIN_ROOM_SIZE <= (m0.rooms@[i]).x2 - m0.rooms@[i].x1
                                < MAX_ROOM_SIZE);
                        }
                    }

                    assert forall|i: int, j: int| 0 <= i < j < newrooms.len() implies !(
                    #[trigger] newrooms[i].intersects(newrooms[j])) by {
                        if j < len0 {
                            assert(newrooms[i] == rooms0[i] && newrooms[j] == rooms0[j]);
                            assert(!rooms0[i].intersects(rooms0[j]));
                        } else {
                            assert(newrooms[i] == rooms0[i] && newrooms[j] == room);
                            assert(!room.intersects(rooms0[i]));
                            lemma_intersect_symmetric(rooms0[i], room);
                        }
                    }

                    assert forall|i: int, px: int, py: int|
                        0 <= i < newrooms.len() && (#[trigger] newrooms[i].contains_interior(
                            px,
                            py,
                        )) implies map.tile_at(px, py) == TileType::Floor by {
                        assert(map.room_in_bounds(newrooms[i]));
                        let t1 = m1.tile_at(px, py);
                        if i < len0 {
                            assert(newrooms[i] == rooms0[i]);
                            assert(m0.rooms@[i].contains_interior(px, py));
                            assert(m0.tile_at(px, py) == TileType::Floor);
                        } else {
                            assert(room.contains_interior(px, py));
                        }
                    }

                    assert forall|px: int, py: int|
                        map.on_grid(px, py) && (#[trigger] map.tile_at(px, py))
                            == TileType::Floor implies floor_justified(
                        newrooms,
                        map.width as int,
                        map.height as int,
                        px,
                        py,
                    ) by {
                        let t1 = m1.tile_at(px, py);
                        let t0 = m0.tile_at(px, py);
                        if len0 == 0 {
                            assert(room.contains_interior(px, py));
                            assert(newrooms[0] == room);
                            assert((newrooms[0]).contains_interior(px, py));
                        } else {
                            if t1 == TileType::Floor {
                                if room.contains_interior(px, py) {
                                    assert((newrooms[len0]).contains_interior(px, py));
                                } else {
                                    assert(t0 == TileType::Floor);
                                    assert(floor_justified(
                                        rooms0,
                                        m0.width as int,
                                        m0.height as int,
                                        px,
                                        py,
                                    ));
                                    lemma_floor_justified_push(
                                        rooms0,
                                        room,
                                        map.width as int,
                                        map.height as int,
                                        px,
                                        py,
                                    );
                                }
                            } else {
                                assert(on_l_corridor(c_prev, c_curr, px, py) && carve_guard(
                                    map.width as int,
                                    map.height as int,
                                    px,
                                    py,
                                ));
                                assert(newrooms[len0 - 1] == rooms0[len0 - 1]);
                                assert(c_prev == (newrooms[len0 - 1]).center_spec());
                                assert(c_curr == (#[trigger] newrooms[len0]).center_spec());
                            }
                        }
                    }

                    assert(floors_kept(m3, map)) by {
                        assert(map.tiles@ == m3.tiles@);
                    }
                    assert(floors_kept(m0, map)) by {
                        assert forall|ax: int, ay: int|
                            m0.on_grid(ax, ay) && (#[trigger] m0.tile_at(ax, ay))
                                == TileType::Floor implies map.tile_at(ax, ay)
                            == TileType::Floor by {
                            let t1 = m1.tile_at(ax, ay);
                            let t3 = m3.tile_at(ax, ay);
                        }
                    }
                    assert forall|j: int|
                        1 <= j < newrooms.len() implies connected(
                        map,
                        newrooms[j - 1].center_spec(),
                        (#[trigger] newrooms[j]).center_spec(),
                    ) by {
                        if j < len0 {
                            assert(newrooms[j] == rooms0[j] && newrooms[j - 1] == rooms0[j - 1]);
                            assert(connected(
                                m0,
                                rooms0[j - 1].center_spec(),
                                rooms0[j].center_spec(),
                            ));
                            lemma_connected_kept(
                                m0,
                                map,
                                rooms0[j - 1].center_spec(),
                                rooms0[j].center_spec(),
                            );
                        } else {
                            assert(connected(m3, c_prev, c_curr));
                            lemma_connected_kept(m3, map, c_prev, c_curr);
                            assert(newrooms[j - 1] == rooms0[len0 - 1] && newrooms[j] == room);
                        }
                    }

                    if newrooms.len() <= 1 {
                        assert(len0 == 0);
                        assert forall|px: int, py: int| map.on_grid(px, py) implies ((
                        #[trigger] map.tile_at(px, py)) == TileType::Floor <==> (newrooms.len()
                            == 1 && newrooms[0].contains_interior(px, py))) by {
                            let t1 = m1.tile_at(px, py);
                            let t0 = m0.tile_at(px, py);
                            assert(newrooms[0] == room);
                        }
                    }
                }
            }
            iter += 1;
        }
        map
    }

    /// Runs `generate_with` at the full room budget: the single entry point
    /// the game layer uses to build a session's map.
    pub fn generate(rng: &mut rltk::RandomNumberGenerator) -> (map: DungeonMap)
        ensures
            map.wf(),
            map.rooms@.len() <= MAX_ROOMS,
            map.rooms_ok(),
            map.rooms_sized(),
            map.rooms_carved(),
            map.floors_justified(),
            map.single_room_exact(),
            map.centers_connected(),
    {
        Self::generate_with(rng, MAX_ROOMS)
    }

    /// The spawn coordinate: the first accepted room's center, or nothing
    /// when generation placed no room at all, which callers must handle
    /// rather than assume a room exists.
    pub fn spawn_point(&self) -> (p: Option<(i32, i32)>)
        requires
            self.wf(),
            self.rooms_ok(),
        ensures
            match p {
                Some(c) => self.rooms@.len() >= 1 && c.0 == self.rooms@[0].center_spec().0
                    && c.1 == self.rooms@[0].center_spec().1,
                None => self.rooms@.len() == 0,
            },
    {
        if self.rooms.is_empty() {
            None
        } else {
            proof {
                assert(self.rooms@[0].wf() && self.room_in_bounds(self.rooms@[0]));
            }
            let first = self.rooms[0];
            Some(first.center())
        }
    }
}

} // verus!
