//! Lossless geometric augmentation of a square patch.
//!
//! Each variant is a fixed permutation of pixel coordinates: every output
//! pixel is copied verbatim from exactly one source pixel, so no data is
//! created or interpolated, and each transform is undone exactly by its
//! inverse.

use vstd::prelude::*;

verus! {

/// The three non-identity transforms a patch is augmented with.
pub enum Direction {
    Right,
    Down,
    Left,
}

/// Source coordinates `(column, row)` in the input grid for output cell
/// `(x, y)` of an `n x n` grid under the given transform.
pub open spec fn aug_source(dir: Direction, n: int, x: int, y: int) -> (int, int) {
    match dir {
        Direction::Right => (n - 1 - y, x),
        Direction::Down => (n - 1 - x, n - 1 - y),
        Direction::Left => (y, n - 1 - x),
    }
}

/// The rows of a vector-of-rows grid, as a sequence of sequences.
pub open spec fn grid_view<T>(v: Seq<Vec<T>>) -> Seq<Seq<T>> {
    Seq::new(v.len(), |i: int| v[i]@)
}

/// Every row is as long as the grid is high.
pub open spec fn is_square<T>(img: Seq<Seq<T>>) -> bool {
    forall|i: int| 0 <= i < img.len() ==> (#[trigger] img[i]).len() == img.len()
}

/// The grid after one transform: cell `(x, y)` holds the source cell that
/// `aug_source` names.
pub open spec fn aug_spec<T>(img: Seq<Seq<T>>, dir: Direction) -> Seq<Seq<T>> {
    Seq::new(
        img.len(),
        |y: int|
            Seq::new(
                img.len(),
                |x: int|
                    img[aug_source(dir, img.len() as int, x, y).1][aug_source(
                        dir,
                        img.len() as int,
                        x,
                        y,
                    ).0],
            ),
    )
}

/// The transform that undoes `dir`: the two quarter turns undo each other
/// and the half turn undoes itself.
pub open spec fn inverse_dir(dir: Direction) -> Direction {
    match dir {
        Direction::Right => Direction::Left,
        Direction::Down => Direction::Down,
        Direction::Left => Direction::Right,
    }
}

/// Law: each transform is a bijective permutation of the pixel grid, undone
/// exactly by its inverse: transforming any square grid and then applying
/// the inverse transform reproduces the original grid element-for-element.
pub proof fn lemma_aug_round_trip<T>(img: Seq<Seq<T>>, dir: Direction)
    requires
        is_square(img),
    ensures
        aug_spec(aug_spec(img, dir), inverse_dir(dir)) == img,
{
    let n = img.len() as int;
    let a = aug_spec(img, dir);
    let b = aug_spec(a, inverse_dir(dir));
    assert forall|y: int| 0 <= y < n implies b[y] =~= img[y] by {
        assert(img[y].len() == img.len());
        assert forall|x: int| 0 <= x < n implies b[y][x] == img[y][x] by {
            let s = aug_source(inverse_dir(dir), n, x, y);
            assert(b[y][x] == a[s.1][s.0]);
        }
    }
    assert(b =~~= img);
}

/// Copies a square grid into its transformed variant; every output cell is
/// pinned to its unique source cell.
#[verifier::loop_isolation(false)]
pub fn aug_img<T: Copy>(img: &Vec<Vec<T>>, dir: Direction) -> (r: Vec<Vec<T>>)
    requires
        img@.len() > 0,
        forall|i: int| 0 <= i < img@.len() ==> (#[trigger] img@[i])@.len() == img@.len(),
    ensures
        r@.len() == img@.len(),
        forall|i: int| 0 <= i < r@.len() ==> (#[trigger] r@[i])@.len() == img@.len(),
        forall|y: int, x: int|
            0 <= y < img@.len() && 0 <= x < img@.len() ==> #[trigger] r@[y]@[x] == img@[aug_source(
                dir,
                img@.len() as int,
                x,
                y,
            ).1]@[aug_source(dir, img@.len() as int, x, y).0],
        grid_view(r@) == aug_spec(grid_view(img@), dir),
{
    let n = img.len();
    let ghost gn = n as int;
    let mut out: Vec<Vec<T>> = Vec::new();
    let mut y: usize = 0;
    while y < n
        invariant
            y <= n,
            out@.len() == y,
            forall|yy: int| 0 <= yy < y ==> (#[trigger] out@[yy])@.len() == n,
            forall|yy: int, xx: int|
                0 <= yy < y && 0 <= xx < n ==> #[trigger] out@[yy]@[xx] == img@[aug_source(
                    dir,
                    gn,
                    xx,
                    yy,
                ).1]@[aug_source(dir, gn, xx, yy).0],
        decreases n - y,
    {
        let mut row: Vec<T> = Vec::new();
        let mut x: usize = 0;
        while x < n
            invariant
                x <= n,
                y < n,
                row@.len() == x,
                forall|xx: int|
                    0 <= xx < x ==> #[trigger] row@[xx] == img@[aug_source(
                        dir,
                        gn,
                        xx,
                        y as int,
                    ).1]@[aug_source(dir, gn, xx, y as int).0],
            decreases n - x,
        {
            let sx: usize;
            let sy: usize;
            match dir {
                Direction::Right => {
                    sx = n - 1 - y;
                    sy = x;
                },
                Direction::Down => {
                    sx = n - 1 - x;
                    sy = n - 1 - y;
                },
                Direction::Left => {
                    sx = y;
                    sy = n - 1 - x;
                },
            }
            let v: T = img[sy][sx];
            row.push(v);
            x = x + 1;
        }
        out.push(row);
        y = y + 1;
    }
    proof {
        assert forall|yy: int| 0 <= yy < gn implies grid_view(out@)[yy] =~= aug_spec(
            grid_view(img@),
            dir,
        )[yy] by {
            assert forall|xx: int| 0 <= xx < gn implies grid_view(out@)[yy][xx] == aug_spec(
                grid_view(img@),
                dir,
            )[yy][xx] by {
                let s = aug_source(dir, gn, xx, yy);
                assert(out@[yy]@[xx] == img@[s.1]@[s.0]);
            }
        }
        assert(grid_view(out@) =~~= aug_spec(grid_view(img@), dir));
    }
    out
}

} // verus!
