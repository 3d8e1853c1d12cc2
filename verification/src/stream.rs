//! Interleaved stereo output buffers: silence, and additive mixing of two
//! channels into the frames of a buffer.
//!
//! A buffer holds frames of two samples, left then right. A buffer of odd
//! length ends in a sample that belongs to no frame and is never touched by
//! mixing.

use vstd::prelude::*;

verus! {

/// The number of whole frames in an interleaved buffer of `len` samples.
pub open spec fn frame_count(len: nat) -> nat {
    len / 2
}

/// Frame `k` of `after` is frame `k` of `before` with `left[k]` and
/// `right[k]` combined by `mix`.
pub open spec fn frame_mixed<T, F: Fn(T, T) -> T>(
    mix: &F,
    before: Seq<T>,
    left: Seq<T>,
    right: Seq<T>,
    after: Seq<T>,
    k: int,
) -> bool {
    &&& call_ensures(mix, (before[2 * k], left[k]), after[2 * k])
    &&& call_ensures(mix, (before[2 * k + 1], right[k]), after[2 * k + 1])
}

/// `after` is `before` with the first `frames` frames mixed with the two
/// channels, and every other sample as it was.
pub open spec fn frames_mixed<T, F: Fn(T, T) -> T>(
    mix: &F,
    before: Seq<T>,
    left: Seq<T>,
    right: Seq<T>,
    after: Seq<T>,
    frames: nat,
) -> bool {
    &&& after.len() == before.len()
    &&& forall|k: int| 0 <= k < frames ==> #[trigger] frame_mixed(mix, before, left, right, after, k)
    &&& forall|j: int| 2 * frames <= j < before.len() ==> after[j] == before[j]
}

/// The lesser of two lengths.
pub open spec fn min_len(a: nat, b: nat) -> nat {
    if a <= b {
        a
    } else {
        b
    }
}

/// Overwrites every sample of the buffer with the equilibrium value.
pub fn silence<T: Copy>(data: &mut [T], equilibrium: T)
    ensures
        final(data)@.len() == old(data)@.len(),
        forall|j: int| 0 <= j < final(data)@.len() ==> final(data)@[j] == equilibrium,
{
    let n: usize = data.len();
    let mut j: usize = 0;
    while j < n
        invariant
            n == data@.len(),
            j <= n,
            forall|k: int| 0 <= k < j ==> data@[k] == equilibrium,
        decreases n - j,
    {
        data[j] = equilibrium;
        j = j + 1;
    }
}

/// Adds two channels into the frames of the buffer: sample `k` of `left`
/// into the first sample of frame `k`, sample `k` of `right` into the
/// second.
///
/// As many frames are mixed as the buffer and both channels hold; what lies
/// behind them stays as it was.
pub fn mix_frames<T: Copy, F: Fn(T, T) -> T>(data: &mut [T], left: &[T], right: &[T], mix: &F)
    requires
        forall|a: T, b: T| call_requires(mix, (a, b)),
    ensures
        frames_mixed(
            mix,
            old(data)@,
            left@,
            right@,
            final(data)@,
            min_len(frame_count(old(data)@.len()), min_len(left@.len(), right@.len())),
        ),
{
    let n: usize = data.len();
    let mut frames: usize = n / 2;
    if left.len() < frames {
        frames = left.len();
    }
    if right.len() < frames {
        frames = right.len();
    }
    let ghost before = data@;
    let mut i: usize = 0;
    while i < frames
        invariant
            forall|a: T, b: T| call_requires(mix, (a, b)),
            i <= frames,
            n == before.len(),
            2 * frames <= n,
            frames <= left@.len(),
            frames <= right@.len(),
            data@.len() == before.len(),
            forall|k: int| 0 <= k < i ==> #[trigger] frame_mixed(mix, before, left@, right@, data@, k),
            forall|j: int| 2 * i <= j < before.len() ==> data@[j] == before[j],
        decreases frames - i,
    {
        let ghost prev = data@;
        let a: T = mix(data[2 * i], left[i]);
        let b: T = mix(data[2 * i + 1], right[i]);
        data[2 * i] = a;
        data[2 * i + 1] = b;
        proof {
            assert forall|k: int| 0 <= k < i + 1 implies #[trigger] frame_mixed(
                mix,
                before,
                left@,
                right@,
                data@,
                k,
            ) by {
                if k < i {
                    assert(frame_mixed(mix, before, left@, right@, prev, k));
                }
            }
        }
        i = i + 1;
    }
}

/// Two sources mixed into one silent buffer give, sample by sample, the sum
/// of what each gives alone.
///
/// This holds for every way of mixing that computes a function `plus` of
/// its two arguments for which the value of silence, `zero`, is neutral on
/// the left. `only_a` and `only_b` are the buffers after one source alone,
/// `both` is the buffer after the second source was mixed in behind the
/// first.
pub proof fn lemma_mixing_is_additive<T, F: Fn(T, T) -> T>(
    mix: &F,
    plus: spec_fn(T, T) -> T,
    zero: T,
    silent: Seq<T>,
    left_a: Seq<T>,
    right_a: Seq<T>,
    left_b: Seq<T>,
    right_b: Seq<T>,
    only_a: Seq<T>,
    only_b: Seq<T>,
    both: Seq<T>,
    frames: nat,
)
    requires
        forall|a: T, b: T, r: T| call_ensures(mix, (a, b), r) ==> r == plus(a, b),
        forall|x: T| #[trigger] plus(zero, x) == x,
        forall|j: int| 0 <= j < silent.len() ==> silent[j] == zero,
        frames_mixed(mix, silent, left_a, right_a, only_a, frames),
        frames_mixed(mix, silent, left_b, right_b, only_b, frames),
        frames_mixed(mix, only_a, left_b, right_b, both, frames),
    ensures
        both.len() == silent.len(),
        forall|j: int| 0 <= j < both.len() ==> both[j] == plus(only_a[j], only_b[j]),
{
    assert forall|j: int| 0 <= j < both.len() implies both[j] == plus(only_a[j], only_b[j]) by {
        if j < 2 * frames {
            let k = j / 2;
            assert(frame_mixed(mix, silent, left_a, right_a, only_a, k));
            assert(frame_mixed(mix, silent, left_b, right_b, only_b, k));
            assert(frame_mixed(mix, only_a, left_b, right_b, both, k));
        }
    }
}

} // verus!
