//! From a magnitude spectrum to a display of fixed resolution: the size of
//! the transform, the buckets that the bins fall into, and the greatest
//! magnitude of each bucket.
//!
//! Magnitudes are ordinals: signed integers that stand in the order of the
//! magnitudes they stand for. Only that order is used here.

use vstd::prelude::*;
use vstd::arithmetic::div_mod::lemma_fundamental_div_mod;
use vstd::arithmetic::mul::lemma_mul_inequality;
use vstd::arithmetic::mul::lemma_mul_is_commutative;
use vstd::arithmetic::mul::lemma_mul_strict_inequality;
use vstd::arithmetic::power2::lemma2_to64;
use vstd::arithmetic::power2::lemma_pow2_pos;
use vstd::arithmetic::power2::lemma_pow2_strictly_increases;
use vstd::arithmetic::power2::lemma_pow2_unfold;
use vstd::arithmetic::power2::pow2;

verus! {

/// Whether `n` is a power of two.
pub open spec fn is_power_of_two(n: nat) -> bool {
    exists|e: nat| pow2(e) == n
}

/// Whether `size` is the smallest power of two that is at least `len`.
pub open spec fn is_transform_size(size: nat, len: nat) -> bool {
    &&& is_power_of_two(size)
    &&& len <= size
    &&& forall|p: nat| is_power_of_two(p) && len <= p ==> size <= p
}

/// Among the powers of two, those below `pow2(e)` are at most half of it.
proof fn lemma_power_below(p: nat, e: nat)
    requires
        is_power_of_two(p),
        e > 0,
        p < pow2(e),
    ensures
        p <= pow2((e - 1) as nat),
{
    let j = choose|j: nat| pow2(j) == p;
    if j > e {
        lemma_pow2_strictly_increases(e, j);
    }
    if j < e - 1 {
        lemma_pow2_strictly_increases(j, (e - 1) as nat);
    }
}

/// Among the powers of two, those above `pow2(e)` are at least twice it.
proof fn lemma_power_above(p: nat, e: nat)
    requires
        is_power_of_two(p),
        p > pow2(e),
    ensures
        p >= 2 * pow2(e),
{
    let j = choose|j: nat| pow2(j) == p;
    if j < e {
        lemma_pow2_strictly_increases(j, e);
    }
    lemma_pow2_unfold(e + 1);
    if j > e + 1 {
        lemma_pow2_strictly_increases(e + 1, j);
    }
}

/// The length to which a clip of `len` samples is padded before the
/// transform: the smallest power of two that is at least `len`.
///
/// `None` exactly when no such power of two fits the machine word.
pub fn fft_size(len: usize) -> (r: Option<usize>)
    ensures
        match r {
            Some(size) => is_transform_size(size as nat, len as nat),
            None => forall|p: nat| is_power_of_two(p) && len <= p ==> p > usize::MAX,
        },
{
    let mut size: usize = 1;
    let ghost mut e: nat = 0;
    proof {
        lemma2_to64();
    }
    while size < len
        invariant
            pow2(e) == size,
            size >= 1,
            e > 0 ==> pow2((e - 1) as nat) < len,
        decreases usize::MAX - size,
    {
        if size > usize::MAX / 2 {
            proof {
                assert forall|p: nat| is_power_of_two(p) && len <= p implies p > usize::MAX by {
                    lemma_power_above(p, e);
                }
            }
            return None;
        }
        proof {
            lemma_pow2_unfold(e + 1);
            e = e + 1;
        }
        size = size * 2;
    }
    proof {
        assert forall|p: nat| is_power_of_two(p) && len <= p implies size <= p by {
            if p < size {
                if e > 0 {
                    lemma_power_below(p, e);
                } else {
                    lemma_pow2_pos(choose|j: nat| pow2(j) == p);
                }
            }
        }
    }
    Some(size)
}

/// The first bin behind bucket `i`, when `bins` bins are laid over
/// `resolution` buckets: the number of bins `c` with
/// `c / bins < (i + 1) / resolution`.
pub open spec fn bucket_end(i: int, bins: int, resolution: int) -> int {
    ((i + 1) * bins + resolution - 1) / resolution
}

/// The first bin of bucket `i`: where the bucket before it ends.
pub open spec fn bucket_start(i: int, bins: int, resolution: int) -> int {
    if i <= 0 {
        0
    } else {
        bucket_end(i - 1, bins, resolution)
    }
}

/// The bucket that takes bin `c`.
pub open spec fn bucket_of(c: int, bins: int, resolution: int) -> int {
    c * resolution / bins
}

/// A bucket ends where the boundary rule stops: bin `c` lies before the end
/// of bucket `i` exactly when `c / bins < (i + 1) / resolution`, written
/// without division.
pub proof fn lemma_bucket_end_is_boundary(c: int, i: int, bins: int, resolution: int)
    requires
        resolution > 0,
    ensures
        c < bucket_end(i, bins, resolution) <==> c * resolution < (i + 1) * bins,
{
    let n = (i + 1) * bins;
    let e = bucket_end(i, bins, resolution);
    lemma_fundamental_div_mod(n + resolution - 1, resolution);
    let r = (n + resolution - 1) % resolution;
    assert(resolution * e == n + resolution - 1 - r);
    lemma_mul_is_commutative(resolution, e);
    if c < e {
        lemma_mul_inequality(c, e - 1, resolution);
        assert((e - 1) * resolution == e * resolution - resolution) by (nonlinear_arith);
    } else {
        lemma_mul_inequality(e, c, resolution);
    }
}

/// The buckets lie one behind the other and cover the bins: the first
/// starts at bin 0, each is a range that ends where the next one starts,
/// and the last ends behind the last bin.
pub proof fn lemma_buckets_tile_bins(bins: int, resolution: int)
    requires
        bins >= 0,
        resolution >= 1,
    ensures
        bucket_start(0, bins, resolution) == 0,
        bucket_end(resolution - 1, bins, resolution) == bins,
        forall|i: int|
            0 <= i < resolution ==> 0 <= #[trigger] bucket_start(i, bins, resolution) <= bucket_end(
                i,
                bins,
                resolution,
            ) <= bins,
        forall|i: int|
            0 <= i < resolution ==> #[trigger] bucket_end(i, bins, resolution) == bucket_start(
                i + 1,
                bins,
                resolution,
            ),
{
    assert forall|i: int| 0 <= i < resolution implies 0 <= #[trigger] bucket_start(
        i,
        bins,
        resolution,
    ) <= bucket_end(i, bins, resolution) <= bins by {
        lemma_bucket_ends_ordered(i - 1, i, bins, resolution);
        lemma_bucket_ends_ordered(-1, i - 1, bins, resolution);
        lemma_bucket_ends_ordered(i, resolution - 1, bins, resolution);
        lemma_last_bucket_end(bins, resolution);
        lemma_first_bucket_start(bins, resolution);
    }
    lemma_last_bucket_end(bins, resolution);
}

/// Before the first bucket no bin has been taken.
proof fn lemma_first_bucket_start(bins: int, resolution: int)
    requires
        bins >= 0,
        resolution >= 1,
    ensures
        bucket_end(-1, bins, resolution) == 0,
{
    lemma_bucket_end_is_boundary(0, -1, bins, resolution);
    lemma_bucket_end_is_boundary(-1, -1, bins, resolution);
    assert(0 * bins == 0) by (nonlinear_arith);
}

/// The last bucket ends behind the last bin.
proof fn lemma_last_bucket_end(bins: int, resolution: int)
    requires
        bins >= 0,
        resolution >= 1,
    ensures
        bucket_end(resolution - 1, bins, resolution) == bins,
{
    lemma_bucket_end_is_boundary(bins, resolution - 1, bins, resolution);
    lemma_bucket_end_is_boundary(bins - 1, resolution - 1, bins, resolution);
    lemma_mul_is_commutative(bins, resolution);
    assert((bins - 1) * resolution < bins * resolution) by (nonlinear_arith)
        requires
            resolution >= 1,
    ;
}

/// A later bucket ends no earlier.
proof fn lemma_bucket_ends_ordered(i: int, j: int, bins: int, resolution: int)
    requires
        bins >= 0,
        resolution >= 1,
        i <= j,
    ensures
        bucket_end(i, bins, resolution) <= bucket_end(j, bins, resolution),
{
    let c = bucket_end(i, bins, resolution) - 1;
    lemma_bucket_end_is_boundary(c, i, bins, resolution);
    lemma_bucket_end_is_boundary(c, j, bins, resolution);
    lemma_mul_inequality(i + 1, j + 1, bins);
}

/// Every bin lies in exactly one bucket: in the one that `bucket_of` names,
/// and in no other.
pub proof fn lemma_bin_in_one_bucket(c: int, bins: int, resolution: int)
    requires
        resolution >= 1,
        0 <= c < bins,
    ensures
        0 <= bucket_of(c, bins, resolution) < resolution,
        forall|i: int|
            0 <= i < resolution ==> ((#[trigger] bucket_start(i, bins, resolution) <= c
                < bucket_end(i, bins, resolution)) <==> i == bucket_of(c, bins, resolution)),
{
    let b = bucket_of(c, bins, resolution);
    lemma_fundamental_div_mod(c * resolution, bins);
    let r = (c * resolution) % bins;
    assert(bins * b == c * resolution - r);
    lemma_mul_is_commutative(bins, b);
    assert(b * bins <= c * resolution < (b + 1) * bins) by (nonlinear_arith)
        requires
            b * bins == c * resolution - r,
            0 <= r < bins,
    ;
    assert(0 <= c * resolution) by (nonlinear_arith)
        requires
            0 <= c,
            1 <= resolution,
    ;
    if b < 0 {
        lemma_mul_inequality(b + 1, 0, bins);
        assert(0 * bins == 0) by (nonlinear_arith);
    }
    if b >= resolution {
        lemma_mul_inequality(resolution, b, bins);
        lemma_mul_strict_inequality(c, bins, resolution);
    }
    assert forall|i: int| 0 <= i < resolution implies ((#[trigger] bucket_start(
        i,
        bins,
        resolution,
    ) <= c < bucket_end(i, bins, resolution)) <==> i == b) by {
        lemma_bucket_end_is_boundary(c, i, bins, resolution);
        lemma_bucket_end_is_boundary(c, i - 1, bins, resolution);
        lemma_first_bucket_start(bins, resolution);
        if i < b {
            lemma_mul_inequality(i + 1, b, bins);
        }
        if i > b {
            lemma_mul_inequality(b + 1, i, bins);
        }
    }
}

/// The greatest of `floor` and the magnitudes of the bins from `lo` up to,
/// not including, `hi`.
pub open spec fn range_max(mags: Seq<i64>, lo: int, hi: int, floor: i64) -> i64
    decreases hi - lo,
{
    if hi <= lo {
        floor
    } else {
        let rest = range_max(mags, lo, hi - 1, floor);
        if rest < mags[hi - 1] {
            mags[hi - 1]
        } else {
            rest
        }
    }
}

/// `range_max` is a maximum: it is no less than `floor` and than each
/// magnitude in the range, and it is `floor` or one of those magnitudes.
pub proof fn lemma_range_max_is_greatest(mags: Seq<i64>, lo: int, hi: int, floor: i64)
    ensures
        floor <= range_max(mags, lo, hi, floor),
        forall|k: int| lo <= k < hi ==> #[trigger] mags[k] <= range_max(mags, lo, hi, floor),
        range_max(mags, lo, hi, floor) == floor || exists|k: int|
            lo <= k < hi && #[trigger] mags[k] == range_max(mags, lo, hi, floor),
    decreases hi - lo,
{
    if hi > lo {
        lemma_range_max_is_greatest(mags, lo, hi - 1, floor);
        let rest = range_max(mags, lo, hi - 1, floor);
        if rest < mags[hi - 1] {
            assert(mags[hi - 1] == range_max(mags, lo, hi, floor));
        } else if rest != floor {
            let k = choose|k: int| lo <= k < hi - 1 && #[trigger] mags[k] == rest;
            assert(lo <= k < hi && mags[k] == range_max(mags, lo, hi, floor));
        }
    }
}

/// What is displayed for a range of bins lies between the floor and the
/// greatest magnitude of the whole spectrum, or at the floor where the
/// spectrum stays below it.
pub proof fn lemma_range_max_in_range(
    mags: Seq<i64>,
    lo: int,
    hi: int,
    floor: i64,
    whole_floor: i64,
)
    requires
        0 <= lo,
        hi <= mags.len(),
    ensures
        floor <= range_max(mags, lo, hi, floor),
        range_max(mags, lo, hi, floor) == floor || range_max(mags, lo, hi, floor) <= range_max(
            mags,
            0,
            mags.len() as int,
            whole_floor,
        ),
{
    lemma_range_max_is_greatest(mags, lo, hi, floor);
    lemma_range_max_is_greatest(mags, 0, mags.len() as int, whole_floor);
}

/// The product of two machine words fits four of them.
proof fn lemma_word_product_fits(a: int, b: int)
    requires
        0 <= a <= usize::MAX,
        0 <= b <= usize::MAX,
    ensures
        0 <= a * b <= u128::MAX - usize::MAX,
{
    assert(0 <= a * b <= 0xffff_ffff_ffff_ffff * 0xffff_ffff_ffff_ffff) by (nonlinear_arith)
        requires
            0 <= a <= 0xffff_ffff_ffff_ffff,
            0 <= b <= 0xffff_ffff_ffff_ffff,
    ;
}

/// The greatest magnitude of a spectrum, and `floor` where none exceeds it.
pub fn max_magnitude(mags: &[i64], floor: i64) -> (r: i64)
    ensures
        r == range_max(mags@, 0, mags@.len() as int, floor),
{
    let n: usize = mags.len();
    let mut max: i64 = floor;
    let mut k: usize = 0;
    while k < n
        invariant
            n == mags@.len(),
            k <= n,
            max == range_max(mags@, 0, k as int, floor),
        decreases n - k,
    {
        if max < mags[k] {
            max = mags[k];
        }
        k = k + 1;
    }
    max
}

/// The display values of a spectrum: for each of `resolution` buckets, in
/// order of frequency, the greatest magnitude among its bins, and `floor`
/// where the bucket is empty or holds nothing above it.
///
/// Bucket `i` takes the bins that follow those of the buckets before it,
/// for as long as `bin / bins < (i + 1) / resolution`.
pub fn bucket_maxima(mags: &[i64], floor: i64, resolution: usize) -> (out: Vec<i64>)
    ensures
        out@.len() == resolution,
        forall|i: int|
            0 <= i < resolution ==> #[trigger] out@[i] == range_max(
                mags@,
                bucket_start(i, mags@.len() as int, resolution as int),
                bucket_end(i, mags@.len() as int, resolution as int),
                floor,
            ),
{
    let n: usize = mags.len();
    let mut out: Vec<i64> = Vec::with_capacity(resolution);
    let mut cur: usize = 0;
    // `reached` is `cur * resolution`, `limit` is `i * n`.
    let mut reached: u128 = 0;
    let mut limit: u128 = 0;
    let mut i: usize = 0;
    proof {
        lemma_word_product_fits(n as int, resolution as int);
        assert(0 * resolution == 0 && 0 * n == 0) by (nonlinear_arith);
    }
    while i < resolution
        invariant
            n == mags@.len(),
            i <= resolution,
            cur <= n,
            0 <= n * resolution <= u128::MAX - usize::MAX,
            cur == bucket_start(i as int, n as int, resolution as int),
            reached == cur * resolution,
            limit == i * n,
            out@.len() == i,
            forall|j: int|
                0 <= j < i ==> #[trigger] out@[j] == range_max(
                    mags@,
                    bucket_start(j, n as int, resolution as int),
                    bucket_end(j, n as int, resolution as int),
                    floor,
                ),
        decreases resolution - i,
    {
        let ghost lo = cur as int;
        let ghost hi = bucket_end(i as int, n as int, resolution as int);
        proof {
            lemma_mul_inequality(i + 1, resolution as int, n as int);
            lemma_mul_is_commutative(n as int, resolution as int);
            assert((i + 1) * n == i * n + n) by (nonlinear_arith);
            lemma_buckets_tile_bins(n as int, resolution as int);
        }
        limit = limit + n as u128;
        let mut max: i64 = floor;
        while cur < n && reached < limit
            invariant
                n == mags@.len(),
                i < resolution,
                lo <= cur <= hi <= n,
                hi == bucket_end(i as int, n as int, resolution as int),
                0 <= n * resolution <= u128::MAX - usize::MAX,
                reached == cur * resolution,
                limit == (i + 1) * n,
                max == range_max(mags@, lo, cur as int, floor),
            decreases n - cur,
        {
            proof {
                lemma_bucket_end_is_boundary(cur as int, i as int, n as int, resolution as int);
                lemma_mul_inequality(cur + 1, n as int, resolution as int);
                assert((cur + 1) * resolution == cur * resolution + resolution) by (nonlinear_arith);
            }
            if max < mags[cur] {
                max = mags[cur];
            }
            cur = cur + 1;
            reached = reached + resolution as u128;
        }
        proof {
            lemma_bucket_end_is_boundary(cur as int, i as int, n as int, resolution as int);
        }
        out.push(max);
        i = i + 1;
    }
    out
}

} // verus!
