//! Merging per-worker extent lists and deriving the global patch size.
//!
//! After the bounding-box phase, the per-worker lists are concatenated in
//! worker order, and the run's single square patch dimension is the
//! maximum of `max(width, height)` over all extents. The reduction spans
//! every worker's extents, so one outsized object inflates the patch size
//! for the whole run.

use vstd::prelude::*;
use crate::extent::{extent_result, Extent};
use crate::schedule::{partition_end, partition_start};

verus! {

/// The larger of an extent's two dimensions.
pub open spec fn max_dim(e: Extent) -> int {
    if e.0 >= e.1 {
        e.0 as int
    } else {
        e.1 as int
    }
}

/// The run-wide square patch size: the maximum of `max_dim` over all
/// extents, `0` when there are none.
pub open spec fn patch_size_of(s: Seq<Extent>) -> int
    decreases s.len(),
{
    if s.len() == 0 {
        0
    } else {
        let rest = patch_size_of(s.drop_last());
        if max_dim(s.last()) >= rest {
            max_dim(s.last())
        } else {
            rest
        }
    }
}

/// Law: the global patch size bounds every extent's dimensions.
pub proof fn lemma_patch_size_bound(s: Seq<Extent>, i: int)
    requires
        0 <= i < s.len(),
    ensures
        max_dim(s[i]) <= patch_size_of(s),
    decreases s.len(),
{
    if i < s.len() - 1 {
        lemma_patch_size_bound(s.drop_last(), i);
        assert(s.drop_last()[i] == s[i]);
    }
}

/// Law: a non-empty run's global patch size is attained by some extent.
pub proof fn lemma_patch_size_attained(s: Seq<Extent>) -> (i: int)
    requires
        s.len() > 0,
    ensures
        0 <= i < s.len(),
        max_dim(s[i]) == patch_size_of(s),
    decreases s.len(),
{
    if s.len() == 1 {
        assert(patch_size_of(s.drop_last()) == 0);
        assert(s[0] == s.last());
        0
    } else if max_dim(s.last()) >= patch_size_of(s.drop_last()) {
        s.len() - 1
    } else {
        let i = lemma_patch_size_attained(s.drop_last());
        assert(s.drop_last()[i] == s[i]);
        i
    }
}

/// Law: growing one extent's larger dimension moves the global patch size
/// exactly to that dimension once it passes the old maximum, and leaves it
/// unchanged otherwise.
pub proof fn lemma_patch_size_update(s: Seq<Extent>, i: int, e: Extent)
    requires
        0 <= i < s.len(),
        max_dim(e) >= max_dim(s[i]),
    ensures
        patch_size_of(s.update(i, e)) == if max_dim(e) >= patch_size_of(s) {
            max_dim(e)
        } else {
            patch_size_of(s)
        },
{
    let s2 = s.update(i, e);
    assert(s2[i] == e);
    lemma_patch_size_bound(s2, i);
    let j = lemma_patch_size_attained(s2);
    if j != i {
        lemma_patch_size_bound(s, j);
        assert(s2[j] == s[j]);
    }
    let k = lemma_patch_size_attained(s);
    if k != i {
        lemma_patch_size_bound(s2, k);
        assert(s2[k] == s[k]);
    }
}

/// Computes the global patch size of a merged extent list: the exact
/// maximum of each extent's larger dimension, attained by one of them.
#[verifier::loop_isolation(false)]
pub fn global_patch_size(extents: &Vec<Extent>) -> (r: usize)
    ensures
        r as int == patch_size_of(extents@),
        forall|i: int| 0 <= i < extents@.len() ==> max_dim(#[trigger] extents@[i]) <= r as int,
        extents@.len() > 0 ==> exists|i: int|
            0 <= i < extents@.len() && max_dim(#[trigger] extents@[i]) == r as int,
{
    let mut r: usize = 0;
    let mut i: usize = 0;
    while i < extents.len()
        invariant
            i <= extents@.len(),
            r as int == patch_size_of(extents@.take(i as int)),
        decreases extents@.len() - i,
    {
        let e: Extent = extents[i];
        let d: usize = if e.0 >= e.1 {
            e.0
        } else {
            e.1
        };
        if d > r {
            r = d;
        }
        proof {
            assert(extents@.take(i as int + 1).drop_last() =~= extents@.take(i as int));
            assert(extents@.take(i as int + 1).last() == extents@[i as int]);
        }
        i = i + 1;
    }
    proof {
        assert(extents@.take(extents@.len() as int) =~= extents@);
        assert forall|k: int|
            0 <= k < extents@.len() implies max_dim(#[trigger] extents@[k]) <= r as int by {
            lemma_patch_size_bound(extents@, k);
        }
        if extents@.len() > 0 {
            let j = lemma_patch_size_attained(extents@);
            assert(max_dim(extents@[j]) == r as int);
        }
    }
    r
}

/// What merging yields: the worker lists laid end to end in worker order.
pub open spec fn concat_views(lists: Seq<Vec<Extent>>) -> Seq<Extent>
    decreases lists.len(),
{
    if lists.len() == 0 {
        Seq::empty()
    } else {
        concat_views(lists.drop_last()) + lists.last()@
    }
}

/// Where the first `p` of `nthreads` worker ranges together end
/// (exclusive): the start of range `p`, or one past the last id once every
/// range is in.
pub open spec fn cover_end(total: int, nthreads: int, p: int) -> int {
    if p == nthreads {
        1 + total
    } else {
        partition_start(total, nthreads, p)
    }
}

proof fn lemma_merged_prefix(
    lists: Seq<Vec<Extent>>,
    mask: Seq<u16>,
    width: int,
    height: int,
    total: int,
    nthreads: int,
    p: int,
)
    requires
        1 <= nthreads,
        0 <= total,
        lists.len() == nthreads,
        0 <= p <= nthreads,
        forall|t: int|
            0 <= t < nthreads ==> (#[trigger] lists[t])@.len() == partition_end(
                total,
                nthreads,
                t,
            ) - partition_start(total, nthreads, t),
        forall|t: int, k: int|
            0 <= t < nthreads && 0 <= k < lists[t]@.len() ==> extent_result(
                mask,
                width,
                height,
                partition_start(total, nthreads, t) + k,
                #[trigger] lists[t]@[k],
            ),
    ensures
        concat_views(lists.take(p)).len() == cover_end(total, nthreads, p) - 1,
        forall|j: int|
            0 <= j < cover_end(total, nthreads, p) - 1 ==> extent_result(
                mask,
                width,
                height,
                j + 1,
                #[trigger] concat_views(lists.take(p))[j],
            ),
    decreases p,
{
    if p == 0 {
        assert(lists.take(0).len() == 0);
        assert(concat_views(lists.take(0)).len() == 0);
        assert(0 * (total / nthreads) == 0);
        assert(cover_end(total, nthreads, 0) == 1);
    } else {
        lemma_merged_prefix(lists, mask, width, height, total, nthreads, p - 1);
        assert(lists.take(p).drop_last() =~= lists.take(p - 1));
        assert(lists.take(p).last() == lists[p - 1]);
        let pre = concat_views(lists.take(p - 1));
        let cur = lists[p - 1]@;
        assert(concat_views(lists.take(p)) == pre + cur);
        assert(p * (total / nthreads) == (p - 1) * (total / nthreads) + total / nthreads)
            by (nonlinear_arith);
        assert(cover_end(total, nthreads, p - 1) == partition_start(total, nthreads, p - 1));
        assert(partition_end(total, nthreads, p - 1) == cover_end(total, nthreads, p));
        assert(pre.len() == partition_start(total, nthreads, p - 1) - 1);
        assert(cur.len() == partition_end(total, nthreads, p - 1) - partition_start(
            total,
            nthreads,
            p - 1,
        ));
        assert(concat_views(lists.take(p)).len() == cover_end(total, nthreads, p) - 1);
        assert forall|j: int|
            0 <= j < cover_end(total, nthreads, p) - 1 implies extent_result(
            mask,
            width,
            height,
            j + 1,
            #[trigger] concat_views(lists.take(p))[j],
        ) by {
            if j < pre.len() {
                assert(concat_views(lists.take(p))[j] == pre[j]);
            } else {
                let k = j - pre.len();
                assert(concat_views(lists.take(p))[j] == cur[k]);
                assert(extent_result(
                    mask,
                    width,
                    height,
                    partition_start(total, nthreads, p - 1) + k,
                    lists[p - 1]@[k],
                ));
            }
        }
    }
}

/// Law: when each of `nthreads` workers reports one extent per label id of
/// its own contiguous range, the lists laid end to end in worker order form
/// one list of length `total` whose entry `j` is the extent of label id
/// `j + 1` - the merged list is indexed consistently by label id, which is
/// what the cropping phase's lookup relies on.
pub proof fn lemma_merged_indexed_by_id(
    lists: Seq<Vec<Extent>>,
    mask: Seq<u16>,
    width: int,
    height: int,
    total: int,
    nthreads: int,
)
    requires
        1 <= nthreads,
        0 <= total,
        lists.len() == nthreads,
        forall|t: int|
            0 <= t < nthreads ==> (#[trigger] lists[t])@.len() == partition_end(
                total,
                nthreads,
                t,
            ) - partition_start(total, nthreads, t),
        forall|t: int, k: int|
            0 <= t < nthreads && 0 <= k < lists[t]@.len() ==> extent_result(
                mask,
                width,
                height,
                partition_start(total, nthreads, t) + k,
                #[trigger] lists[t]@[k],
            ),
    ensures
        concat_views(lists).len() == total,
        forall|j: int|
            0 <= j < total ==> extent_result(
                mask,
                width,
                height,
                j + 1,
                #[trigger] concat_views(lists)[j],
            ),
{
    lemma_merged_prefix(lists, mask, width, height, total, nthreads, nthreads as int);
    assert(lists.take(nthreads as int) =~= lists);
}

/// Concatenates the per-worker extent lists in worker order, so a merged
/// list built from ascending, contiguous per-worker id ranges stays indexed
/// consistently by label id.
#[verifier::loop_isolation(false)]
pub fn merge_extents(lists: &Vec<Vec<Extent>>) -> (r: Vec<Extent>)
    ensures
        r@ == concat_views(lists@),
{
    let mut r: Vec<Extent> = Vec::new();
    let mut i: usize = 0;
    while i < lists.len()
        invariant
            i <= lists@.len(),
            r@ == concat_views(lists@.take(i as int)),
        decreases lists@.len() - i,
    {
        let ghost base = r@;
        let mut j: usize = 0;
        while j < lists[i].len()
            invariant
                i < lists@.len(),
                j <= lists@[i as int]@.len(),
                r@ == base + lists@[i as int]@.take(j as int),
            decreases lists@[i as int]@.len() - j,
        {
            let v: Extent = lists[i][j];
            r.push(v);
            proof {
                assert(lists@[i as int]@.take(j as int + 1) =~= lists@[i as int]@.take(j as int)
                    + seq![lists@[i as int]@[j as int]]);
                assert(base + lists@[i as int]@.take(j as int + 1) =~= (base + lists@[
                i as int]@.take(j as int)) + seq![lists@[i as int]@[j as int]]);
            }
            j = j + 1;
        }
        proof {
            assert(lists@[i as int]@.take(lists@[i as int]@.len() as int) =~= lists@[i as int]@);
            assert(lists@.take(i as int + 1).drop_last() =~= lists@.take(i as int));
            assert(lists@.take(i as int + 1).last() == lists@[i as int]);
        }
        i = i + 1;
    }
    proof {
        assert(lists@.take(lists@.len() as int) =~= lists@);
    }
    r
}

} // verus!
