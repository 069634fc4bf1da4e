//! Partitioning the label-id space over a fixed worker count, and the
//! file-numbering rule that keeps workers' output names disjoint.
//!
//! Label ids `1..=total` (id `0` is background and always excluded) are
//! split into `nthreads` contiguous near-equal ranges; the last range
//! absorbs the remainder. The same boundaries serve both pipeline phases.
//! Each label yields four files, numbered consecutively from four times
//! the partition's first label id, so no two workers share a file index.

use vstd::arithmetic::div_mod::lemma_fundamental_div_mod;
use vstd::arithmetic::mul::lemma_mul_inequality;
use vstd::prelude::*;

verus! {

/// Where worker `t`'s label-id range begins: after `t` equal shares of
/// `total / nthreads` ids each, counted from id `1`.
pub open spec fn partition_start(total: int, nthreads: int, t: int) -> int {
    1 + t * (total / nthreads)
}

/// Where worker `t`'s label-id range ends (exclusive): the next worker's
/// start, except that the last worker absorbs `total % nthreads`.
pub open spec fn partition_end(total: int, nthreads: int, t: int) -> int {
    if t + 1 == nthreads {
        1 + total
    } else {
        1 + (t + 1) * (total / nthreads)
    }
}

/// Law: consecutive workers' ranges tile the id space with no gap and no
/// overlap, from id `1` up to and including id `total`.
pub proof fn lemma_partition_contiguous(total: int, nthreads: int, t: int)
    requires
        1 <= nthreads,
        0 <= t < nthreads,
    ensures
        t + 1 < nthreads ==> partition_end(total, nthreads, t) == partition_start(
            total,
            nthreads,
            t + 1,
        ),
        partition_start(total, nthreads, 0) == 1,
        partition_end(total, nthreads, nthreads - 1) == 1 + total,
{
}

/// The label-id range `[start, end)` that worker `t` of `nthreads` scans:
/// ranges are contiguous in `t`, near-equal, begin at id `1`, and the last
/// worker's range absorbs `total_objs % nthreads`.
pub fn partition(total_objs: usize, nthreads: usize, t: usize) -> (r: (usize, usize))
    requires
        1 <= nthreads,
        t < nthreads,
        total_objs < usize::MAX,
    ensures
        r.0 == partition_start(total_objs as int, nthreads as int, t as int),
        r.1 == partition_end(total_objs as int, nthreads as int, t as int),
        1 <= r.0 <= r.1 <= 1 + total_objs as int,
{
    let truns: usize = total_objs / nthreads;
    proof {
        lemma_fundamental_div_mod(total_objs as int, nthreads as int);
        lemma_mul_inequality(t as int + 1, nthreads as int, truns as int);
        lemma_mul_inequality(t as int, t as int + 1, truns as int);
        assert((nthreads as int) * (truns as int) <= total_objs as int);
        assert((t as int + 1) * (truns as int) <= (nthreads as int) * (truns as int));
    }
    let start: usize = 1 + t * truns;
    let end: usize = if t + 1 == nthreads {
        1 + total_objs
    } else {
        1 + (t + 1) * truns
    };
    (start, end)
}

/// The file number of variant `variant` (identity, then the three
/// transforms, in order) of the `k`-th label in a partition whose first
/// label id is `first_id`: each label emits four consecutive files and a
/// partition starts at four times its first label id.
pub fn file_index(first_id: usize, k: usize, variant: usize) -> (r: usize)
    requires
        variant < 4,
        4 * (first_id as int + k as int) + 3 <= usize::MAX,
    ensures
        r as int == 4 * (first_id as int + k as int) + variant as int,
{
    (first_id + k) * 4 + variant
}

/// Law: distinct (label, variant) pairs get distinct file numbers, so
/// workers writing disjoint label ranges never target the same file.
pub proof fn lemma_file_index_injective(a: int, va: int, b: int, vb: int)
    requires
        0 <= va < 4,
        0 <= vb < 4,
        4 * a + va == 4 * b + vb,
    ensures
        a == b,
        va == vb,
{
}

/// Powers of ten, for reading a decimal digit string.
pub open spec fn pow10(k: nat) -> int
    decreases k,
{
    if k == 0 {
        1
    } else {
        10 * pow10((k - 1) as nat)
    }
}

/// The six-digit zero-padded decimal form of a file number, as ASCII
/// digits; digit `k` is the `10^(5-k)` place of `n`.
pub fn format_index(n: usize) -> (r: Vec<u8>)
    requires
        n < 1000000,
    ensures
        r@.len() == 6,
        forall|k: int| 0 <= k < 6 ==> 48 <= #[trigger] r@[k] <= 57,
        forall|k: int| 0 <= k < 6 ==> #[trigger] r@[k] as int == 48 + ((n as int) / pow10(
            (5 - k) as nat,
        )) % 10,
{
    let mut r: Vec<u8> = Vec::new();
    r.push((48 + (n / 100000) % 10) as u8);
    r.push((48 + (n / 10000) % 10) as u8);
    r.push((48 + (n / 1000) % 10) as u8);
    r.push((48 + (n / 100) % 10) as u8);
    r.push((48 + (n / 10) % 10) as u8);
    r.push((48 + n % 10) as u8);
    proof {
        assert(pow10(0) == 1);
        assert(pow10(1) == 10);
        assert(pow10(2) == 100);
        assert(pow10(3) == 1000);
        assert(pow10(4) == 10000);
        assert(pow10(5) == 100000);
        assert(r@[5] as int == 48 + ((n as int) / pow10(0)) % 10);
        assert(r@[4] as int == 48 + ((n as int) / pow10(1)) % 10);
        assert(r@[3] as int == 48 + ((n as int) / pow10(2)) % 10);
        assert(r@[2] as int == 48 + ((n as int) / pow10(3)) % 10);
        assert(r@[1] as int == 48 + ((n as int) / pow10(4)) % 10);
        assert(r@[0] as int == 48 + ((n as int) / pow10(5)) % 10);
    }
    r
}

} // verus!
