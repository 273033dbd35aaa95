//! The row-major coordinate scheme: translation between `(x, y)` cell
//! coordinates and flat offsets into the backing buffer, and the proof that
//! the two translations are mutual inverses over the valid domain.

use vstd::arithmetic::div_mod::{
    lemma_fundamental_div_mod, lemma_fundamental_div_mod_converse,
};
use vstd::prelude::*;

verus! {

/// The flat row-major offset of the cell at `(x, y)` in a grid `w` cells wide.
pub open spec fn flat_offset(w: int, x: int, y: int) -> int {
    y * w + x
}

/// The x coordinate of the cell stored at flat offset `i` in a grid `w` cells
/// wide.
pub open spec fn offset_x(w: int, i: int) -> int {
    i % w
}

/// The y coordinate of the cell stored at flat offset `i` in a grid `w` cells
/// wide.
pub open spec fn offset_y(w: int, i: int) -> int {
    i / w
}

/// Every valid coordinate pair maps to an offset inside the backing buffer:
/// for `x < w` and `y < h`, the flat offset lies in `[0, w * h)`.
pub proof fn lemma_flat_offset_in_range(w: int, h: int, x: int, y: int)
    requires
        0 <= x < w,
        0 <= y < h,
    ensures
        0 <= flat_offset(w, x, y) < w * h,
{
    assert(0 <= y * w + x < w * h) by (nonlinear_arith)
        requires
            0 <= x < w,
            0 <= y < h,
    ;
}

/// Splitting a flat offset back into coordinates undoes `flat_offset`: for a
/// valid pair `(x, y)` the offset maps back to exactly `(x, y)`.
pub proof fn lemma_coords_of_flat_offset(w: int, x: int, y: int)
    requires
        0 <= x < w,
        0 <= y,
    ensures
        offset_x(w, flat_offset(w, x, y)) == x,
        offset_y(w, flat_offset(w, x, y)) == y,
{
    lemma_fundamental_div_mod_converse(y * w + x, w, y, x);
}

/// `flat_offset` undoes the coordinate split: any offset `i` into a grid `w`
/// cells wide equals the flat offset of its own coordinates, and those
/// coordinates are valid (`x < w`, and `y < h` whenever `i < w * h`).
pub proof fn lemma_flat_offset_of_coords(w: int, h: int, i: int)
    requires
        0 < w,
        0 <= i < w * h,
    ensures
        flat_offset(w, offset_x(w, i), offset_y(w, i)) == i,
        0 <= offset_x(w, i) < w,
        0 <= offset_y(w, i) < h,
{
    lemma_fundamental_div_mod(i, w);
    assert((i / w) * w == w * (i / w)) by (nonlinear_arith);
    assert(0 <= i % w < w) by (nonlinear_arith)
        requires
            0 < w,
            0 <= i,
    ;
    assert(0 <= i / w < h) by (nonlinear_arith)
        requires
            0 < w,
            0 <= i < w * h,
            i == w * (i / w) + i % w,
            0 <= i % w < w,
    ;
}

} // verus!
