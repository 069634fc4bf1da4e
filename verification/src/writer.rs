//! Laying a patch out for the persisted image container.
//!
//! The container stores the grid as one flat buffer whose row order is the
//! vertical flip of the in-memory row order: file row 0 is the last
//! in-memory row, so flat position `y * width + x` holds in-memory cell
//! `[height - 1 - y][x]`. The container's header carries the width, the
//! height and a tag saying that no normalization was applied; writing the
//! header and the bytes is the caller's business.

use vstd::prelude::*;

verus! {

/// The flat buffer position of file row `y`, file column `x`.
pub open spec fn flat_index(width: int, x: int, y: int) -> int {
    y * width + x
}

/// Flattens a grid into container order: position `flat_index(width, x, y)`
/// of the result holds `img[height - 1 - y][x]`.
#[verifier::loop_isolation(false)]
pub fn flatten_flipped<T: Copy>(img: &Vec<Vec<T>>, height: usize, width: usize) -> (r: Vec<T>)
    requires
        img@.len() >= height,
        forall|i: int| 0 <= i < img@.len() ==> (#[trigger] img@[i])@.len() >= width,
    ensures
        r@.len() == (height as int) * (width as int),
        forall|y: int, x: int|
            0 <= y < height && 0 <= x < width ==> r@[#[trigger] flat_index(width as int, x, y)]
                == img@[height - 1 - y]@[x],
{
    let mut r: Vec<T> = Vec::new();
    let mut y: usize = 0;
    while y < height
        invariant
            y <= height,
            r@.len() == (y as int) * (width as int),
            forall|yy: int, xx: int|
                0 <= yy < y && 0 <= xx < width ==> r@[#[trigger] flat_index(width as int, xx, yy)]
                    == img@[height - 1 - yy]@[xx],
        decreases height - y,
    {
        let mut x: usize = 0;
        while x < width
            invariant
                x <= width,
                y < height,
                r@.len() == (y as int) * (width as int) + (x as int),
                forall|yy: int, xx: int|
                    0 <= yy < y && 0 <= xx < width ==> r@[#[trigger] flat_index(
                        width as int,
                        xx,
                        yy,
                    )] == img@[height - 1 - yy]@[xx],
                forall|xx: int|
                    0 <= xx < x ==> r@[#[trigger] flat_index(width as int, xx, y as int)]
                        == img@[height - 1 - y]@[xx],
            decreases width - x,
        {
            let v: T = img[height - 1 - y][x];
            r.push(v);
            proof {
                assert forall|yy: int, xx: int|
                    0 <= yy < y && 0 <= xx < width implies flat_index(width as int, xx, yy)
                    < (y as int) * (width as int) + (x as int) by {
                    assert((yy + 1) * (width as int) <= (y as int) * (width as int))
                        by (nonlinear_arith)
                        requires
                            yy + 1 <= y as int,
                            width >= 0,
                    ;
                    assert(flat_index(width as int, xx, yy) < (yy + 1) * (width as int))
                        by (nonlinear_arith)
                        requires
                            0 <= xx < width as int,
                    ;
                }
            }
            x = x + 1;
        }
        proof {
            assert((y as int + 1) * (width as int) == (y as int) * (width as int) + (width as int))
                by (nonlinear_arith);
        }
        y = y + 1;
    }
    r
}

} // verus!
