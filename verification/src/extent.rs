//! Bounding-box discovery over a label mask.
//!
//! The mask is a flat row-major grid of `u16` label ids, `0` meaning
//! background. For a range of label ids this module computes each id's
//! axis-aligned bounding box as an `Extent` tuple
//! `(width, height, min_x, min_y, label_id)`, where width and height are
//! `max - min` of the occupied coordinates, so a single-pixel object has
//! width and height `0`.

use vstd::prelude::*;

verus! {

/// `(width, height, min_x, min_y, label_id)` of one label's pixels.
pub type Extent = (usize, usize, usize, usize, usize);

/// The pixel at column `x`, row `y` of the row-major `mask` grid carries
/// label `id`.
pub open spec fn labeled(mask: Seq<u16>, width: int, height: int, id: int, x: int, y: int) -> bool {
    &&& 0 <= x < width
    &&& 0 <= y < height
    &&& mask[y * width + x] as int == id
}

/// Some pixel of the grid carries label `id`.
pub open spec fn label_present(mask: Seq<u16>, width: int, height: int, id: int) -> bool {
    exists|x: int, y: int| labeled(mask, width, height, id, x, y)
}

/// Pixel `(x, y)` of label `id` was already visited by a row-major scan
/// standing at column `cx` of row `cy`.
pub open spec fn labeled_before(
    mask: Seq<u16>,
    width: int,
    height: int,
    id: int,
    x: int,
    y: int,
    cx: int,
    cy: int,
) -> bool {
    &&& labeled(mask, width, height, id, x, y)
    &&& y < cy || (y == cy && x < cx)
}

/// Column `x` holds some pixel of label `id`.
pub open spec fn col_occupied(mask: Seq<u16>, width: int, height: int, id: int, x: int) -> bool {
    exists|y: int| labeled(mask, width, height, id, x, y)
}

/// Row `y` holds some pixel of label `id`.
pub open spec fn row_occupied(mask: Seq<u16>, width: int, height: int, id: int, y: int) -> bool {
    exists|x: int| labeled(mask, width, height, id, x, y)
}

/// `e` is the exact bounding box of label `id`: it contains every pixel of
/// the label, and each of its four sides touches one.
pub open spec fn extent_of(mask: Seq<u16>, width: int, height: int, id: int, e: Extent) -> bool {
    &&& e.4 as int == id
    &&& forall|x: int, y: int|
        labeled(mask, width, height, id, x, y) ==> e.2 <= x <= e.2 + e.0 && e.3 <= y <= e.3 + e.1
    &&& col_occupied(mask, width, height, id, e.2 as int)
    &&& col_occupied(mask, width, height, id, e.2 + e.0)
    &&& row_occupied(mask, width, height, id, e.3 as int)
    &&& row_occupied(mask, width, height, id, e.3 + e.1)
}

/// What one scanned label id yields: its exact bounding box when the label
/// occurs, and the degenerate `(0, 0, width, height, id)` extent (min past
/// max, zero span) when it does not.
pub open spec fn extent_result(mask: Seq<u16>, width: int, height: int, id: int, e: Extent) -> bool {
    if label_present(mask, width, height, id) {
        extent_of(mask, width, height, id, e)
    } else {
        e.0 == 0 && e.1 == 0 && e.2 as int == width && e.3 as int == height && e.4 as int == id
    }
}

/// A pixel coordinate inside the grid indexes inside the flat mask.
proof fn lemma_grid_index(width: int, height: int, x: int, y: int)
    by (nonlinear_arith)
    requires
        0 <= x < width,
        0 <= y < height,
    ensures
        0 <= y * width + x < width * height,
{
}

/// Scans the whole grid once per label id in `start..end` and returns each
/// id's extent, in ascending id order.
#[verifier::loop_isolation(false)]
pub fn find_extents(
    mask: &Vec<u16>,
    height: usize,
    width: usize,
    start: usize,
    end: usize,
) -> (r: Vec<Extent>)
    requires
        start <= end,
        mask@.len() == width * height,
    ensures
        r@.len() == end - start,
        forall|k: int|
            0 <= k < r@.len() ==> extent_result(
                mask@,
                width as int,
                height as int,
                start + k,
                #[trigger] r@[k],
            ),
{
    let ghost m = mask@;
    let ghost gw = width as int;
    let ghost gh = height as int;
    let mask_len: usize = mask.len();
    let mut extents: Vec<Extent> = Vec::new();
    let mut i: usize = start;

    while i < end
        invariant
            start <= i <= end,
            extents@.len() == i - start,
            forall|k: int|
                0 <= k < extents@.len() ==> extent_result(m, gw, gh, start + k, #[trigger] extents@[k]),
        decreases end - i,
    {
        let ghost gid = i as int;
        let mut min_x: usize = width;
        let mut min_y: usize = height;
        let mut max_x: usize = 0;
        let mut max_y: usize = 0;
        let mut found: bool = false;

        let mut y: usize = 0;
        while y < height
            invariant
                y <= height,
                !found ==> min_x == width && min_y == height && max_x == 0 && max_y == 0,
                !found ==> forall|xx: int, yy: int|
                    !labeled_before(m, gw, gh, gid, xx, yy, 0, y as int),
                found ==> {
                    &&& min_x <= max_x < width
                    &&& min_y <= max_y < height
                    &&& forall|xx: int, yy: int|
                        labeled_before(m, gw, gh, gid, xx, yy, 0, y as int)
                            ==> min_x <= xx <= max_x && min_y <= yy <= max_y
                    &&& exists|yy: int| labeled_before(m, gw, gh, gid, min_x as int, yy, 0, y as int)
                    &&& exists|yy: int| labeled_before(m, gw, gh, gid, max_x as int, yy, 0, y as int)
                    &&& exists|xx: int| labeled_before(m, gw, gh, gid, xx, min_y as int, 0, y as int)
                    &&& exists|xx: int| labeled_before(m, gw, gh, gid, xx, max_y as int, 0, y as int)
                },
            decreases height - y,
        {
            let mut x: usize = 0;
            while x < width
                invariant
                    x <= width,
                    y < height,
                    !found ==> min_x == width && min_y == height && max_x == 0 && max_y == 0,
                    !found ==> forall|xx: int, yy: int|
                        !labeled_before(m, gw, gh, gid, xx, yy, x as int, y as int),
                    found ==> {
                        &&& min_x <= max_x < width
                        &&& min_y <= max_y < height
                        &&& forall|xx: int, yy: int|
                            labeled_before(m, gw, gh, gid, xx, yy, x as int, y as int)
                                ==> min_x <= xx <= max_x && min_y <= yy <= max_y
                        &&& exists|yy: int| labeled_before(m, gw, gh, gid, min_x as int, yy, x as int, y as int)
                        &&& exists|yy: int| labeled_before(m, gw, gh, gid, max_x as int, yy, x as int, y as int)
                        &&& exists|xx: int| labeled_before(m, gw, gh, gid, xx, min_y as int, x as int, y as int)
                        &&& exists|xx: int| labeled_before(m, gw, gh, gid, xx, max_y as int, x as int, y as int)
                    },
                decreases width - x,
            {
                proof {
                    lemma_grid_index(gw, gh, x as int, y as int);
                    assert((y as int) * gw + (x as int) < (mask_len as int));
                }
                let pos: usize = y * width + x;
                let hit = mask[pos] as usize == i;

                proof {
                    // One scan step: the pixels seen before column x + 1 are
                    // those seen before column x plus the pixel (x, y) itself.
                    assert forall|xx: int, yy: int|
                        labeled_before(m, gw, gh, gid, xx, yy, x as int + 1, y as int) implies (
                        labeled_before(m, gw, gh, gid, xx, yy, x as int, y as int)
                            || (xx == x as int && yy == y as int && labeled(m, gw, gh, gid, xx, yy))
                    ) by {}
                    if hit {
                        assert(labeled(m, gw, gh, gid, x as int, y as int));
                        assert(labeled_before(m, gw, gh, gid, x as int, y as int, x as int + 1, y as int));
                    } else {
                        assert(!labeled(m, gw, gh, gid, x as int, y as int));
                    }
                    assert forall|xx: int, yy: int|
                        labeled_before(m, gw, gh, gid, xx, yy, x as int, y as int) implies
                        labeled_before(m, gw, gh, gid, xx, yy, x as int + 1, y as int) by {}
                }

                if hit {
                    if x < min_x {
                        min_x = x;
                    }
                    if x > max_x {
                        max_x = x;
                    }
                    if y < min_y {
                        min_y = y;
                    }
                    if y > max_y {
                        max_y = y;
                    }
                    found = true;
                }
                x = x + 1;
            }
            proof {
                // Standing at the start of the next row is the same as
                // standing past the last column of this one.
                assert forall|xx: int, yy: int|
                    #[trigger] labeled_before(m, gw, gh, gid, xx, yy, 0, y as int + 1) implies
                    labeled_before(m, gw, gh, gid, xx, yy, width as int, y as int) by {}
                assert forall|xx: int, yy: int|
                    #[trigger] labeled_before(m, gw, gh, gid, xx, yy, width as int, y as int) implies
                    labeled_before(m, gw, gh, gid, xx, yy, 0, y as int + 1) by {}
            }
            y = y + 1;
        }

        let w: usize = if max_x >= min_x {
            max_x - min_x
        } else {
            0
        };
        let h: usize = if max_y >= min_y {
            max_y - min_y
        } else {
            0
        };

        proof {
            // The scan is complete: "seen before the end" is just "labeled".
            assert forall|xx: int, yy: int|
                labeled(m, gw, gh, gid, xx, yy)
                    == labeled_before(m, gw, gh, gid, xx, yy, 0, height as int) by {}
            let e = (w, h, min_x, min_y, i);
            if found {
                assert(label_present(m, gw, gh, gid));
                assert(col_occupied(m, gw, gh, gid, e.2 as int));
                assert(e.2 + e.0 == max_x as int);
                assert(col_occupied(m, gw, gh, gid, e.2 + e.0));
                assert(row_occupied(m, gw, gh, gid, e.3 as int));
                assert(e.3 + e.1 == max_y as int);
                assert(row_occupied(m, gw, gh, gid, e.3 + e.1));
                assert(extent_of(m, gw, gh, gid, e));
            } else {
                assert(!label_present(m, gw, gh, gid));
            }
            assert(extent_result(m, gw, gh, gid, e));
        }

        extents.push((w, h, min_x, min_y, i));
        i = i + 1;
    }
    extents
}

/// The largest label id occurring in `mask`, or `0` for an all-background
/// or empty mask; label ids `1..=total_objects(mask)` are the candidates
/// the pipeline partitions among its workers.
pub fn total_objects(mask: &Vec<u16>) -> (r: u16)
    ensures
        forall|i: int| 0 <= i < mask@.len() ==> mask@[i] <= r,
        r != 0 ==> exists|i: int| 0 <= i < mask@.len() && mask@[i] == r,
{
    let mut r: u16 = 0;
    let mut i: usize = 0;
    while i < mask.len()
        invariant
            i <= mask@.len(),
            forall|j: int| 0 <= j < i ==> mask@[j] <= r,
            r != 0 ==> exists|j: int| 0 <= j < i && mask@[j] == r,
        decreases mask@.len() - i,
    {
        if mask[i] > r {
            r = mask[i];
        }
        i = i + 1;
    }
    r
}

} // verus!
