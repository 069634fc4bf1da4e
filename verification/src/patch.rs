//! Cropping one labeled object out of the raw raster.
//!
//! Each object becomes a square patch of one run-wide size, zero-filled
//! except for the object's own `width x height` sub-rectangle, which is
//! copied from the raster starting at the extent's minimum corner. Any
//! source coordinate outside the raster's bounds - a column past its width
//! or a position past its end - is skipped rather than read, so degenerate
//! extent geometry never reads outside the raster, and never wraps onto a
//! neighbouring row.

use vstd::prelude::*;
use crate::extent::Extent;

verus! {

/// What cell `(x, y)` of the patch for extent `e` holds: the raster sample
/// at row `y + min_y`, column `x + min_x` inside the copied sub-rectangle,
/// and `zero` outside it or where that source coordinate falls outside the
/// raster - a column at or past `raw_width`, or a position past the end.
pub open spec fn patch_cell<T>(
    raw: Seq<T>,
    raw_width: int,
    e: Extent,
    zero: T,
    x: int,
    y: int,
) -> T {
    if y < e.1 && x < e.0 && x + e.2 < raw_width && (y + e.3) * raw_width + x + e.2 < raw.len() {
        raw[(y + e.3) * raw_width + x + e.2]
    } else {
        zero
    }
}

/// Crops the raster into a zero-padded `image_size` square patch for one
/// extent; every cell is pinned by `patch_cell`.
#[verifier::loop_isolation(false)]
pub fn cut_patch<T: Copy>(
    raw_image: &Vec<T>,
    zero: T,
    image_size: usize,
    raw_width: usize,
    extent: Extent,
) -> (r: Vec<Vec<T>>)
    requires
        extent.0 <= image_size,
        extent.1 <= image_size,
        extent.1 + extent.3 <= usize::MAX,
        (extent.1 + extent.3) * (raw_width as int) + extent.0 + extent.2 <= usize::MAX,
    ensures
        r@.len() == image_size,
        forall|y: int| 0 <= y < image_size ==> (#[trigger] r@[y])@.len() == image_size,
        forall|y: int, x: int|
            0 <= y < image_size && 0 <= x < image_size ==> #[trigger] r@[y]@[x] == patch_cell(
                raw_image@,
                raw_width as int,
                extent,
                zero,
                x,
                y,
            ),
{
    let w: usize = extent.0;
    let h: usize = extent.1;
    let xstart = extent.2;
    let ystart = extent.3;
    let raw_len = raw_image.len();

    let mut patch: Vec<Vec<T>> = Vec::new();
    let mut y: usize = 0;
    while y < image_size
        invariant
            y <= image_size,
            patch@.len() == y,
            forall|yy: int| 0 <= yy < y ==> (#[trigger] patch@[yy])@.len() == image_size,
            forall|yy: int, xx: int|
                0 <= yy < y && 0 <= xx < image_size ==> #[trigger] patch@[yy]@[xx] == patch_cell(
                    raw_image@,
                    raw_width as int,
                    extent,
                    zero,
                    xx,
                    yy,
                ),
        decreases image_size - y,
    {
        let mut row: Vec<T> = Vec::new();
        let mut x: usize = 0;
        while x < image_size
            invariant
                x <= image_size,
                y < image_size,
                row@.len() == x,
                forall|xx: int|
                    0 <= xx < x ==> #[trigger] row@[xx] == patch_cell(
                        raw_image@,
                        raw_width as int,
                        extent,
                        zero,
                        xx,
                        y as int,
                    ),
            decreases image_size - x,
        {
            let v: T;
            if y < h && x < w {
                proof {
                    assert(((y as int) + (ystart as int)) * (raw_width as int) + (x as int) + (
                    xstart as int) <= usize::MAX) by (nonlinear_arith)
                        requires
                            (y as int) < (h as int),
                            (x as int) < (w as int),
                            ((h as int) + (ystart as int)) * (raw_width as int) + (w as int) + (
                            xstart as int) <= usize::MAX,
                    ;
                }
                let raw_pos: usize = (y + ystart) * raw_width + x + xstart;
                if x + xstart < raw_width && raw_pos < raw_len {
                    v = raw_image[raw_pos];
                } else {
                    v = zero;
                }
            } else {
                v = zero;
            }
            row.push(v);
            x = x + 1;
        }
        patch.push(row);
        y = y + 1;
    }
    patch
}

} // verus!
