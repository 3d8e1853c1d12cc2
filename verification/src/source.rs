//! A decoded stereo clip that plays in a loop.

use vstd::prelude::*;
use crate::cursor::lemma_wrap_step;
use crate::cursor::wrap_index;
use crate::cursor::PlaybackCursor;

verus! {

/// Why decoded samples cannot become a playable clip.
#[derive(Debug, Clone, Copy, PartialEq, Eq, Structural)]
pub enum LoadError {
    /// The samples are not laid out in exactly two channels.
    ChannelCount,
    /// The clip holds no frame.
    EmptyClip,
    /// One channel holds more samples than the other.
    UnevenChannels,
}

/// The samples at the even positions of an interleaved sequence.
pub open spec fn even_samples<T>(s: Seq<T>) -> Seq<T> {
    Seq::new(((s.len() + 1) / 2) as nat, |i: int| s[2 * i])
}

/// The samples at the odd positions of an interleaved sequence.
pub open spec fn odd_samples<T>(s: Seq<T>) -> Seq<T> {
    Seq::new((s.len() / 2) as nat, |i: int| s[2 * i + 1])
}

/// `count` samples read from `clip` in a loop, beginning at `start`.
pub open spec fn looped<T>(clip: Seq<T>, start: int, count: nat) -> Seq<T> {
    Seq::new(count, |i: int| clip[wrap_index(start, i, clip.len() as int)])
}

/// Splits interleaved stereo samples into a left and a right channel.
///
/// Fails exactly when `channels` is not two. The left channel takes the
/// samples at even positions, the right one those at odd positions, each
/// in order.
pub fn load_audio<T: Copy>(channels: u16, samples: &[T]) -> (r: Result<(Vec<T>, Vec<T>), LoadError>)
    ensures
        channels != 2 ==> r == Err::<(Vec<T>, Vec<T>), LoadError>(LoadError::ChannelCount),
        channels == 2 ==> r.is_ok(),
        r matches Ok(pair) ==> pair.0@ == even_samples(samples@) && pair.1@ == odd_samples(
            samples@,
        ),
{
    if channels != 2 {
        return Err(LoadError::ChannelCount);
    }
    let n: usize = samples.len();
    let mut left: Vec<T> = Vec::new();
    let mut right: Vec<T> = Vec::new();
    let mut i: usize = 0;
    while i < n
        invariant
            n == samples@.len(),
            i <= n,
            left@.len() == (i + 1) / 2,
            right@.len() == i / 2,
            forall|k: int| 0 <= k < left@.len() ==> left@[k] == samples@[2 * k],
            forall|k: int| 0 <= k < right@.len() ==> right@[k] == samples@[2 * k + 1],
        decreases n - i,
    {
        if i % 2 == 0 {
            left.push(samples[i]);
        } else {
            right.push(samples[i]);
        }
        i = i + 1;
    }
    proof {
        assert(left@ =~= even_samples(samples@));
        assert(right@ =~= odd_samples(samples@));
    }
    Ok((left, right))
}

/// Two channels of equal, non-zero length and the cursor that walks them.
pub struct SampleSource<T> {
    left: Vec<T>,
    right: Vec<T>,
    cursor: PlaybackCursor,
}

impl<T> SampleSource<T> {
    /// Both channels are as long as the clip the cursor runs over.
    #[verifier::type_invariant]
    pub closed spec fn inv(&self) -> bool {
        &&& self.cursor.inv()
        &&& self.left@.len() == self.cursor.spec_length()
        &&& self.right@.len() == self.cursor.spec_length()
    }

    /// The left channel.
    pub closed spec fn left(&self) -> Seq<T> {
        self.left@
    }

    /// The right channel.
    pub closed spec fn right(&self) -> Seq<T> {
        self.right@
    }

    /// The index of the next frame to play.
    pub closed spec fn spec_position(&self) -> usize {
        self.cursor.spec_position()
    }

    /// The number of frames in the clip.
    pub closed spec fn spec_len(&self) -> usize {
        self.cursor.spec_length()
    }

    /// In a valid source the channels are equally long, the clip is not
    /// empty and the cursor lies inside it.
    pub proof fn lemma_shape(&self)
        requires
            self.inv(),
        ensures
            self.left().len() == self.spec_len(),
            self.right().len() == self.spec_len(),
            self.spec_position() < self.spec_len(),
    {
        self.cursor.lemma_in_bounds();
    }

    /// The index of the next frame to play.
    #[verifier::when_used_as_spec(spec_position)]
    pub fn position(&self) -> (r: usize)
        ensures
            r == self.spec_position(),
            r < self.spec_len(),
            self.inv(),
    {
        proof {
            use_type_invariant(self);
        }
        self.cursor.position()
    }

    /// The number of frames in the clip.
    #[verifier::when_used_as_spec(spec_len)]
    pub fn len(&self) -> (r: usize)
        ensures
            r == self.spec_len(),
            r == self.left().len(),
            r == self.right().len(),
            self.spec_position() < r,
            self.inv(),
    {
        proof {
            use_type_invariant(self);
            self.cursor.lemma_in_bounds();
        }
        self.cursor.length()
    }
}

impl<T: Copy> SampleSource<T> {
    /// A source at the start of the clip made of the two channels.
    ///
    /// Fails with `EmptyClip` exactly when both channels are empty, and with
    /// `UnevenChannels` exactly when their lengths differ.
    pub fn new(left: Vec<T>, right: Vec<T>) -> (r: Result<SampleSource<T>, LoadError>)
        ensures
            left@.len() != right@.len() ==> r == Err::<SampleSource<T>, LoadError>(
                LoadError::UnevenChannels,
            ),
            left@.len() == right@.len() == 0 ==> r == Err::<SampleSource<T>, LoadError>(
                LoadError::EmptyClip,
            ),
            left@.len() == right@.len() > 0 ==> r.is_ok(),
            r matches Ok(s) ==> {
                &&& s.inv()
                &&& s.left() == left@
                &&& s.right() == right@
                &&& s.spec_position() == 0
            },
    {
        if left.len() != right.len() {
            return Err(LoadError::UnevenChannels);
        }
        match PlaybackCursor::new(left.len()) {
            None => Err(LoadError::EmptyClip),
            Some(cursor) => Ok(SampleSource { left, right, cursor }),
        }
    }

    /// Points the cursor at frame `index`, taken around the clip.
    pub fn seek(&mut self, index: usize)
        ensures
            final(self).inv(),
            final(self).left() == old(self).left(),
            final(self).right() == old(self).right(),
            final(self).spec_len() == old(self).spec_len(),
            final(self).spec_position() == index as int % (old(self).spec_len() as int),
    {
        proof {
            use_type_invariant(&*self);
        }
        self.cursor.seek(index);
    }

    /// Reads the frame under the cursor and steps to the next one, wrapping
    /// at the end of the clip.
    pub fn next_frame(&mut self) -> (frame: (T, T))
        ensures
            final(self).inv(),
            final(self).left() == old(self).left(),
            final(self).right() == old(self).right(),
            final(self).spec_len() == old(self).spec_len(),
            final(self).spec_position() == wrap_index(
                old(self).spec_position() as int,
                1,
                old(self).spec_len() as int,
            ),
            frame.0 == old(self).left()[old(self).spec_position() as int],
            frame.1 == old(self).right()[old(self).spec_position() as int],
    {
        proof {
            use_type_invariant(&*self);
            self.cursor.lemma_in_bounds();
        }
        let k: usize = self.cursor.advance();
        (self.left[k], self.right[k])
    }

    /// Reads the next `count` frames in a loop and leaves the cursor behind
    /// the last of them.
    pub fn take_frames(&mut self, count: usize) -> (out: (Vec<T>, Vec<T>))
        ensures
            final(self).inv(),
            final(self).left() == old(self).left(),
            final(self).right() == old(self).right(),
            final(self).spec_len() == old(self).spec_len(),
            final(self).spec_position() == wrap_index(
                old(self).spec_position() as int,
                count as int,
                old(self).spec_len() as int,
            ),
            out.0@ == looped(old(self).left(), old(self).spec_position() as int, count as nat),
            out.1@ == looped(old(self).right(), old(self).spec_position() as int, count as nat),
    {
        proof {
            use_type_invariant(&*self);
            self.cursor.lemma_in_bounds();
        }
        let ghost start = self.cursor.spec_position() as int;
        let ghost len = self.cursor.spec_length() as int;
        let mut l: Vec<T> = Vec::with_capacity(count);
        let mut r: Vec<T> = Vec::with_capacity(count);
        let mut i: usize = 0;
        proof {
            lemma_wrap_step(start, 0, len);
        }
        while i < count
            invariant
                i <= count,
                self.inv(),
                self.left@ == old(self).left@,
                self.right@ == old(self).right@,
                self.cursor.spec_length() == len,
                0 <= start < len,
                self.cursor.spec_position() == wrap_index(start, i as int, len),
                l@.len() == i,
                r@.len() == i,
                forall|k: int| 0 <= k < i ==> l@[k] == self.left@[wrap_index(start, k, len)],
                forall|k: int| 0 <= k < i ==> r@[k] == self.right@[wrap_index(start, k, len)],
            decreases count - i,
        {
            proof {
                lemma_wrap_step(start, i as int, len);
            }
            let k: usize = self.cursor.advance();
            l.push(self.left[k]);
            r.push(self.right[k]);
            i = i + 1;
        }
        proof {
            assert(l@ =~= looped(old(self).left(), start, count as nat));
            assert(r@ =~= looped(old(self).right(), start, count as nat));
        }
        (l, r)
    }
}

} // verus!
