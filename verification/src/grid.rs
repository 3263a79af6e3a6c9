//! Row-major 2D -> 1D index mapping. It is the single source of truth for
//! translating grid coordinates into positions of the flat tile buffer, and
//! must be used identically by generation, movement checks and rendering.

use vstd::prelude::*;

verus! {

/// Row-major index of the cell `(x, y)` in a grid of the given width.
pub open spec fn grid_index(width: int, x: int, y: int) -> int {
    y * width + x
}

/// The coordinate lies on a grid of the given dimensions.
pub open spec fn in_grid(width: int, height: int, x: int, y: int) -> bool {
    0 <= x < width && 0 <= y < height
}

/// Every on-grid coordinate maps into `[0, width * height)`.
pub proof fn lemma_grid_index_bounds(width: int, height: int, x: int, y: int)
    requires
        in_grid(width, height, x, y),
    ensures
        0 <= grid_index(width, x, y) < width * height,
{
    assert(0 <= y * width + x < width * height) by (nonlinear_arith)
        requires
            0 <= x < width,
            0 <= y < height,
    ;
}

/// Decoding an index back through `(i % width, i / width)` undoes the
/// encoding: the grid index of `(x, y)` decodes to exactly `(x, y)`.
pub proof fn lemma_index_round_trip(width: int, x: int, y: int)
    requires
        0 < width,
        0 <= x < width,
        0 <= y,
    ensures
        grid_index(width, x, y) % width == x,
        grid_index(width, x, y) / width == y,
{
    vstd::arithmetic::div_mod::lemma_fundamental_div_mod_converse(
        y * width + x,
        width,
        y,
        x,
    );
}

/// Decoding any index of the buffer lands on the grid, and encoding the
/// decoded coordinate gives the index back: the mapping is onto.
pub proof fn lemma_decode_in_grid(width: int, height: int, i: int)
    requires
        0 < width,
        0 < height,
        0 <= i < width * height,
    ensures
        in_grid(width, height, i % width, i / width),
        grid_index(width, i % width, i / width) == i,
{
    vstd::arithmetic::div_mod::lemma_fundamental_div_mod(i, width);
    vstd::arithmetic::div_mod::lemma_mod_pos_bound(i, width);
    assert((i / width) * width == width * (i / width)) by (nonlinear_arith);
    assert(0 <= i / width) by (nonlinear_arith)
        requires
            0 < width,
            0 <= i,
    ;
    assert(i / width < height) by {
        if i / width >= height {
            assert(width * (i / width) >= width * height) by (nonlinear_arith)
                requires
                    0 < width,
                    i / width >= height,
            ;
        }
    }
}

/// Two distinct on-grid coordinates never share an index: together with
/// `lemma_decode_in_grid`, the index mapping is a bijection between the grid
/// and the buffer positions, so an index-order scan visits each coordinate
/// exactly once.
pub proof fn lemma_grid_index_injective(
    width: int,
    height: int,
    xa: int,
    ya: int,
    xb: int,
    yb: int,
)
    requires
        in_grid(width, height, xa, ya),
        in_grid(width, height, xb, yb),
        grid_index(width, xa, ya) == grid_index(width, xb, yb),
    ensures
        xa == xb,
        ya == yb,
{
    lemma_index_round_trip(width, xa, ya);
    lemma_index_round_trip(width, xb, yb);
}

/// Stepping to the next index follows the renderer's wrap rule: `x` advances
/// by one, and wraps to the start of the next row after `width` cells.
pub proof fn lemma_traversal_step(width: int, i: int)
    requires
        0 < width,
        0 <= i,
    ensures
        i % width + 1 < width ==> (i + 1) % width == i % width + 1 && (i + 1) / width == i
            / width,
        i % width + 1 == width ==> (i + 1) % width == 0 && (i + 1) / width == i / width + 1,
{
    vstd::arithmetic::div_mod::lemma_fundamental_div_mod(i, width);
    vstd::arithmetic::div_mod::lemma_mod_pos_bound(i, width);
    assert((i / width) * width == width * (i / width)) by (nonlinear_arith);
    if i % width + 1 < width {
        vstd::arithmetic::div_mod::lemma_fundamental_div_mod_converse(
            i + 1,
            width,
            i / width,
            i % width + 1,
        );
    } else {
        assert(i + 1 == (i / width + 1) * width + 0) by (nonlinear_arith)
            requires
                i == width * (i / width) + i % width,
                i % width + 1 == width,
        ;
        vstd::arithmetic::div_mod::lemma_fundamental_div_mod_converse(
            i + 1,
            width,
            i / width + 1,
            0,
        );
    }
}

/// Recovers the grid coordinate of a buffer index by the wrap rule's closed
/// form, `(i % width, i / width)`.
pub fn decode_index(width: usize, i: usize) -> (p: (usize, usize))
    requires
        0 < width,
    ensures
        p.0 == i as int % width as int,
        p.1 == i as int / width as int,
        p.0 < width,
{
    (i % width, i / width)
}

} // verus!
