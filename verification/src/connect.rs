//! Connectivity over floor tiles: paths of orthogonally adjacent floor
//! cells, and the lemmas showing that carved corridor runs form such paths.

use vstd::prelude::*;

use crate::dungeon::{DungeonMap, TileType, MIN_ROOM_SIZE};
use crate::rect::lemma_center_in_interior;

verus! {

/// Two cells are orthogonal neighbours.
pub open spec fn adjacent(a: (int, int), b: (int, int)) -> bool {
    ||| a.0 == b.0 && (a.1 == b.1 + 1 || a.1 + 1 == b.1)
    ||| a.1 == b.1 && (a.0 == b.0 + 1 || a.0 + 1 == b.0)
}

/// A walk over the map: every cell is an on-grid floor tile and consecutive
/// cells are neighbours.
pub open spec fn is_floor_path(m: DungeonMap, path: Seq<(int, int)>) -> bool {
    &&& forall|i: int|
        0 <= i < path.len() ==> m.on_grid((#[trigger] path[i]).0, path[i].1) && m.tile_at(
            path[i].0,
            path[i].1,
        ) == TileType::Floor
    &&& forall|i: int| 0 < i < path.len() ==> adjacent(path[i - 1], #[trigger] path[i])
}

/// Cell `b` can be reached from cell `a` over floor tiles.
pub open spec fn connected(m: DungeonMap, a: (int, int), b: (int, int)) -> bool {
    exists|path: Seq<(int, int)>|
        is_floor_path(m, path) && path.len() >= 1 && path[0] == a && path[path.len() - 1] == b
}

/// `m2` keeps every floor cell of `m1` (carving only ever adds floor).
pub open spec fn floors_kept(m1: DungeonMap, m2: DungeonMap) -> bool {
    &&& m1.width == m2.width
    &&& m1.height == m2.height
    &&& forall|x: int, y: int|
        m1.on_grid(x, y) && (#[trigger] m1.tile_at(x, y)) == TileType::Floor ==> m2.tile_at(x, y)
            == TileType::Floor
}

/// A floor path survives any change that only adds floor cells.
pub proof fn lemma_path_kept(m1: DungeonMap, m2: DungeonMap, path: Seq<(int, int)>)
    requires
        is_floor_path(m1, path),
        floors_kept(m1, m2),
    ensures
        is_floor_path(m2, path),
{
    assert forall|i: int| 0 <= i < path.len() implies m2.on_grid((#[trigger] path[i]).0, path[i].1)
        && m2.tile_at(path[i].0, path[i].1) == TileType::Floor by {
        assert(m1.on_grid(path[i].0, path[i].1) && m1.tile_at(path[i].0, path[i].1)
            == TileType::Floor);
    }
}

/// Connectivity survives any change that only adds floor cells.
pub proof fn lemma_connected_kept(m1: DungeonMap, m2: DungeonMap, a: (int, int), b: (int, int))
    requires
        connected(m1, a, b),
        floors_kept(m1, m2),
    ensures
        connected(m2, a, b),
{
    let path = choose|path: Seq<(int, int)>|
        is_floor_path(m1, path) && path.len() >= 1 && path[0] == a && path[path.len() - 1] == b;
    lemma_path_kept(m1, m2, path);
}

/// Connectivity is transitive: two walks sharing an endpoint join into one.
pub proof fn lemma_connected_trans(m: DungeonMap, a: (int, int), b: (int, int), c: (int, int))
    requires
        connected(m, a, b),
        connected(m, b, c),
    ensures
        connected(m, a, c),
{
    let p1 = choose|path: Seq<(int, int)>|
        is_floor_path(m, path) && path.len() >= 1 && path[0] == a && path[path.len() - 1] == b;
    let p2 = choose|path: Seq<(int, int)>|
        is_floor_path(m, path) && path.len() >= 1 && path[0] == b && path[path.len() - 1] == c;
    let joined = p1 + p2.subrange(1, p2.len() as int);
    assert(joined.len() == p1.len() + p2.len() - 1);
    assert forall|i: int|
        0 <= i < joined.len() implies m.on_grid((#[trigger] joined[i]).0, joined[i].1)
        && m.tile_at(joined[i].0, joined[i].1) == TileType::Floor by {
        if i < p1.len() {
            assert(joined[i] == p1[i]);
        } else {
            assert(joined[i] == p2[i - p1.len() + 1]);
        }
    }
    assert forall|i: int| 0 < i < joined.len() implies adjacent(joined[i - 1], #[trigger] joined[i]) by {
        if i < p1.len() {
            assert(joined[i - 1] == p1[i - 1] && joined[i] == p1[i]);
        } else if i == p1.len() {
            assert(joined[i - 1] == p1[p1.len() - 1]);
            assert(joined[i] == p2[1]);
            assert(adjacent(p2[0], p2[1]));
        } else {
            assert(joined[i - 1] == p2[i - p1.len()] && joined[i] == p2[i - p1.len() + 1]);
            assert(adjacent(p2[i - p1.len()], p2[i - p1.len() + 1]));
        }
    }
    assert(joined[0] == p1[0]);
    assert(joined[joined.len() - 1] == p2[p2.len() - 1]);
    assert(is_floor_path(m, joined) && joined.len() >= 1 && joined[0] == a && joined[joined.len()
        - 1] == c);
}

/// A horizontal run of floor cells at row `y` joins its two end cells.
pub proof fn lemma_h_run_connected(m: DungeonMap, xa: int, xb: int, y: int)
    requires
        forall|px: int|
            (xa <= px <= xb || xb <= px <= xa) ==> m.on_grid(px, y) && (#[trigger] m.tile_at(
                px,
                y,
            )) == TileType::Floor,
    ensures
        connected(m, (xa, y), (xb, y)),
{
    let dir: int = if xa <= xb {
        1
    } else {
        -1
    };
    let len = (if xa <= xb {
        xb - xa
    } else {
        xa - xb
    }) + 1;
    let path = Seq::new(len as nat, |i: int| (xa + dir * i, y));
    assert forall|i: int| 0 <= i < path.len() implies m.on_grid((#[trigger] path[i]).0, path[i].1)
        && m.tile_at(path[i].0, path[i].1) == TileType::Floor by {
        let px = xa + dir * i;
        assert(xa <= px <= xb || xb <= px <= xa) by (nonlinear_arith)
            requires
                px == xa + dir * i,
                0 <= i < len,
                (dir == 1 && len == xb - xa + 1) || (dir == -1 && len == xa - xb + 1),
        ;
    }
    assert forall|i: int| 0 < i < path.len() implies adjacent(path[i - 1], #[trigger] path[i]) by {
        assert(path[i].0 == xa + dir * i && path[i - 1].0 == xa + dir * (i - 1));
        assert(dir * i == dir * (i - 1) + dir) by (nonlinear_arith);
    }
    assert(path[0] == (xa, y));
    assert(path[path.len() - 1] == (xb, y)) by {
        assert(dir * (len - 1) == xb - xa) by (nonlinear_arith)
            requires
                (dir == 1 && len == xb - xa + 1) || (dir == -1 && len == xa - xb + 1),
        ;
    }
    assert(is_floor_path(m, path) && path.len() >= 1 && path[0] == (xa, y) && path[path.len() - 1]
        == (xb, y));
}

/// A vertical run of floor cells at column `x` joins its two end cells.
pub proof fn lemma_v_run_connected(m: DungeonMap, ya: int, yb: int, x: int)
    requires
        forall|py: int|
            (ya <= py <= yb || yb <= py <= ya) ==> m.on_grid(x, py) && (#[trigger] m.tile_at(
                x,
                py,
            )) == TileType::Floor,
    ensures
        connected(m, (x, ya), (x, yb)),
{
    let dir: int = if ya <= yb {
        1
    } else {
        -1
    };
    let len = (if ya <= yb {
        yb - ya
    } else {
        ya - yb
    }) + 1;
    let path = Seq::new(len as nat, |i: int| (x, ya + dir * i));
    assert forall|i: int| 0 <= i < path.len() implies m.on_grid((#[trigger] path[i]).0, path[i].1)
        && m.tile_at(path[i].0, path[i].1) == TileType::Floor by {
        let py = ya + dir * i;
        assert(ya <= py <= yb || yb <= py <= ya) by (nonlinear_arith)
            requires
                py == ya + dir * i,
                0 <= i < len,
                (dir == 1 && len == yb - ya + 1) || (dir == -1 && len == ya - yb + 1),
        ;
    }
    assert forall|i: int| 0 < i < path.len() implies adjacent(path[i - 1], #[trigger] path[i]) by {
        assert(path[i].1 == ya + dir * i && path[i - 1].1 == ya + dir * (i - 1));
        assert(dir * i == dir * (i - 1) + dir) by (nonlinear_arith);
    }
    assert(path[0] == (x, ya));
    assert(path[path.len() - 1] == (x, yb)) by {
        assert(dir * (len - 1) == yb - ya) by (nonlinear_arith)
            requires
                (dir == 1 && len == yb - ya + 1) || (dir == -1 && len == ya - yb + 1),
        ;
    }
    assert(is_floor_path(m, path) && path.len() >= 1 && path[0] == (x, ya) && path[path.len() - 1]
        == (x, yb));
}


/// The generated dungeon is fully connected: from the first accepted room's
/// center, a walk over floor tiles reaches every accepted room's center, the
/// last one's in particular.
pub proof fn lemma_first_center_reaches_all(m: DungeonMap, j: int)
    requires
        m.wf(),
        m.rooms_ok(),
        m.rooms_sized(),
        m.rooms_carved(),
        m.centers_connected(),
        0 <= j < m.rooms@.len(),
    ensures
        connected(m, m.rooms@[0].center_spec(), m.rooms@[j].center_spec()),
    decreases j,
{
    if j == 0 {
        let r = m.rooms@[0];
        assert(r.wf() && m.room_in_bounds(r) && MIN_ROOM_SIZE <= r.x2 - r.x1 && MIN_ROOM_SIZE
            <= r.y2 - r.y1);
        lemma_center_in_interior(r);
        let c = r.center_spec();
        assert(m.rooms@[0].contains_interior(c.0, c.1));
        let path = seq![c];
        assert(is_floor_path(m, path) && path.len() >= 1 && path[0] == c && path[path.len() - 1]
            == c);
    } else {
        lemma_first_center_reaches_all(m, j - 1);
        assert(connected(
            m,
            m.rooms@[j - 1].center_spec(),
            (#[trigger] m.rooms@[j]).center_spec(),
        ));
        lemma_connected_trans(
            m,
            m.rooms@[0].center_spec(),
            m.rooms@[j - 1].center_spec(),
            m.rooms@[j].center_spec(),
        );
    }
}

} // verus!
