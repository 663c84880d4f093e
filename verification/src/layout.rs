//! Row-major addressing: where the cell in row `y`, column `x` of a grid
//! lies in the flat sequence of its cells.

use vstd::arithmetic::div_mod::{
    lemma_div_pos_is_pos, lemma_fundamental_div_mod, lemma_mod_pos_bound, lemma_multiply_divide_lt,
};
use vstd::prelude::*;

verus! {

/// The cell in row `y` and column `x` lies inside a grid of `height` rows
/// and `width` columns.
pub open spec fn in_grid(width: int, height: int, y: int, x: int) -> bool {
    0 <= y < height && 0 <= x < width
}

/// Position of the cell in row `y`, column `x` among the cells of a grid
/// whose rows are `width` cells long, rows laid end to end.
pub open spec fn offset(width: int, y: int, x: int) -> int {
    y * width + x
}

/// Every cell of the grid has its position among the `width * height`
/// cells of the flat sequence.
pub proof fn lemma_offset_in_range(width: int, height: int, y: int, x: int)
    requires
        in_grid(width, height, y, x),
    ensures
        0 <= y * width <= offset(width, y, x) < width * height,
{
    assert(0 <= y * width && (y + 1) * width <= height * width) by (nonlinear_arith)
        requires
            0 <= y < height,
            0 < width,
    ;
    assert((y + 1) * width == y * width + width && height * width == width * height)
        by (nonlinear_arith);
}

/// Two different cells of the grid never share a position.
pub proof fn lemma_offset_injective(width: int, height: int, y1: int, x1: int, y2: int, x2: int)
    requires
        in_grid(width, height, y1, x1),
        in_grid(width, height, y2, x2),
        offset(width, y1, x1) == offset(width, y2, x2),
    ensures
        y1 == y2,
        x1 == x2,
{
    if y1 < y2 {
        assert((y1 + 1) * width <= y2 * width) by (nonlinear_arith)
            requires
                y1 + 1 <= y2,
                0 < width,
        ;
        assert((y1 + 1) * width == y1 * width + width) by (nonlinear_arith);
    } else if y2 < y1 {
        assert((y2 + 1) * width <= y1 * width) by (nonlinear_arith)
            requires
                y2 + 1 <= y1,
                0 < width,
        ;
        assert((y2 + 1) * width == y2 * width + width) by (nonlinear_arith);
    }
}

/// Every position of the flat sequence belongs to a cell of the grid: the
/// one in row `i / width`, column `i % width`.
pub proof fn lemma_position_is_a_cell(width: int, height: int, i: int)
    requires
        0 <= width,
        0 <= i < width * height,
    ensures
        in_grid(width, height, i / width, i % width),
        offset(width, i / width, i % width) == i,
{
    assert(width != 0) by (nonlinear_arith)
        requires
            0 < width * height,
    ;
    lemma_fundamental_div_mod(i, width);
    lemma_mod_pos_bound(i, width);
    lemma_div_pos_is_pos(i, width);
    lemma_multiply_divide_lt(i, width, height);
    assert(width * (i / width) == (i / width) * width) by (nonlinear_arith);
}

} // verus!
