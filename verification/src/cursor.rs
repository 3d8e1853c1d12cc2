//! The playback cursor of a looping clip.

use vstd::prelude::*;
use vstd::arithmetic::div_mod::lemma_add_mod_noop_right;
use vstd::arithmetic::div_mod::lemma_mod_self_0;
use vstd::arithmetic::div_mod::lemma_small_mod;

verus! {

/// The index reached from `start` after `count` steps around a clip of
/// `len` samples.
pub open spec fn wrap_index(start: int, count: int, len: int) -> int {
    (start + count) % len
}

/// Walking the clip one sample at a time reaches the same indices as
/// `wrap_index` names: the walk begins at `start`, each index lies inside
/// the clip, and one more step from the index after `count` steps is the
/// index after `count + 1`.
pub proof fn lemma_wrap_step(start: int, count: int, len: int)
    requires
        0 <= start < len,
        0 <= count,
    ensures
        wrap_index(start, 0, len) == start,
        0 <= wrap_index(start, count, len) < len,
        wrap_index(wrap_index(start, count, len), 1, len) == wrap_index(start, count + 1, len),
{
    lemma_small_mod(start as nat, len as nat);
    lemma_add_mod_noop_right(1, start + count, len);
}

/// Index of the next sample to play in a clip of fixed, non-zero length.
pub struct PlaybackCursor {
    loc: usize,
    len: usize,
}

impl PlaybackCursor {
    /// The cursor always points inside the clip.
    #[verifier::type_invariant]
    pub closed spec fn inv(&self) -> bool {
        self.loc < self.len
    }

    /// The index the cursor points at.
    pub closed spec fn spec_position(&self) -> usize {
        self.loc
    }

    /// The length of the clip the cursor runs over.
    pub closed spec fn spec_length(&self) -> usize {
        self.len
    }

    /// A valid cursor lies in `[0, length)`.
    pub proof fn lemma_in_bounds(&self)
        requires
            self.inv(),
        ensures
            0 <= self.spec_position() < self.spec_length(),
    {
    }

    /// A cursor at the start of a clip of `len` samples; `None` exactly when
    /// the clip is empty.
    pub fn new(len: usize) -> (r: Option<PlaybackCursor>)
        ensures
            r.is_some() <==> len > 0,
            r matches Some(c) ==> c.inv() && c.spec_position() == 0 && c.spec_length() == len,
    {
        if len == 0 {
            None
        } else {
            Some(PlaybackCursor { loc: 0, len })
        }
    }

    /// The index the cursor points at.
    #[verifier::when_used_as_spec(spec_position)]
    pub fn position(&self) -> (r: usize)
        ensures
            r == self.spec_position(),
            r < self.spec_length(),
            self.inv(),
    {
        proof {
            use_type_invariant(self);
        }
        self.loc
    }

    /// The length of the clip the cursor runs over.
    #[verifier::when_used_as_spec(spec_length)]
    pub fn length(&self) -> (r: usize)
        ensures
            r == self.spec_length(),
            r > 0,
            self.inv(),
    {
        proof {
            use_type_invariant(self);
        }
        self.len
    }

    /// Steps to the next sample, wrapping at the end of the clip, and
    /// returns the index that was current before the step.
    pub fn advance(&mut self) -> (r: usize)
        ensures
            r == old(self).spec_position(),
            final(self).spec_length() == old(self).spec_length(),
            final(self).spec_position() == wrap_index(
                old(self).spec_position() as int,
                1,
                old(self).spec_length() as int,
            ),
            final(self).inv(),
    no_unwind
    {
        proof {
            use_type_invariant(&*self);
        }
        let r: usize = self.loc;
        if self.loc == self.len - 1 {
            proof {
                lemma_mod_self_0(self.len as int);
            }
            self.loc = 0;
        } else {
            self.loc = self.loc + 1;
            proof {
                lemma_small_mod((r + 1) as nat, self.len as nat);
            }
        }
        r
    }

    /// Points the cursor at `index`, taken around the clip: an index at or
    /// past the end wraps to the start.
    pub fn seek(&mut self, index: usize)
        ensures
            final(self).spec_length() == old(self).spec_length(),
            final(self).spec_position() == index as int % (old(self).spec_length() as int),
            final(self).inv(),
    no_unwind
    {
        proof {
            use_type_invariant(&*self);
        }
        self.loc = index % self.len;
    }
}

} // verus!
