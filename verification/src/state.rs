//! The state of one playing source and what it contributes to each output
//! buffer.

use vstd::prelude::*;
use crate::cursor::lemma_wrap_step;
use crate::cursor::wrap_index;
use crate::source::even_samples;
use crate::source::load_audio;
use crate::source::odd_samples;
use crate::source::looped;
use crate::source::LoadError;
use crate::source::SampleSource;
use crate::stage::HotParameter;
use crate::stage::SynthesisStage;
use crate::stream::frame_count;
use crate::stream::frame_mixed;
use crate::stream::frames_mixed;

verus! {

/// What a source did for one output buffer, and what is left to do.
pub enum BufferWork<T> {
    /// The source is paused: nothing was read and nothing written.
    Idle,
    /// No filters are installed: the dry frames were mixed into the buffer.
    Dry,
    /// Filters are installed: the buffer is untouched. The filters are
    /// first given the pending decay and transpose, if any, then run over
    /// the dry channels; the result is mixed in by the caller.
    Wet { decay: Option<u64>, transpose: Option<u64>, left: Vec<T>, right: Vec<T> },
}

/// One source: its clip and cursor, whether it plays, its synthesis stage
/// and the two parameters that the filters follow.
///
/// `T` is the sample type, `P` the resonator plan and `A` the filter pair.
pub struct AudioState<T, P, A> {
    /// The clip and the cursor into it.
    pub source: SampleSource<T>,
    /// Whether the source contributes to the output.
    pub playing: bool,
    /// The plan and filters, as far as they exist.
    pub stage: SynthesisStage<P, A>,
    /// How slowly the resonators die away.
    pub decay: HotParameter,
    /// How far the resonators are tuned away from the plan.
    pub transpose: HotParameter,
}

/// Frame `k` of `after` holds sample `k` of each channel, converted.
pub open spec fn frame_written<T, U, C: Fn(T) -> U>(
    convert: &C,
    left: Seq<T>,
    right: Seq<T>,
    after: Seq<U>,
    k: int,
) -> bool {
    &&& call_ensures(convert, (left[k],), after[2 * k])
    &&& call_ensures(convert, (right[k],), after[2 * k + 1])
}

impl<T: Copy, P, A> AudioState<T, P, A> {
    /// The dry left channel of the next `frames` frames.
    pub open spec fn dry_left(&self, frames: nat) -> Seq<T> {
        looped(self.source.left(), self.source.spec_position() as int, frames)
    }

    /// The dry right channel of the next `frames` frames.
    pub open spec fn dry_right(&self, frames: nat) -> Seq<T> {
        looped(self.source.right(), self.source.spec_position() as int, frames)
    }

    /// `after` is this state once `frames` frames were read: the cursor has
    /// moved that far around the clip, all else is as in `self` but for the
    /// two parameters, which are as given.
    pub open spec fn advanced(
        &self,
        after: &Self,
        frames: nat,
        decay: HotParameter,
        transpose: HotParameter,
    ) -> bool {
        &&& after.source.inv()
        &&& after.source.left() == self.source.left()
        &&& after.source.right() == self.source.right()
        &&& after.source.spec_len() == self.source.spec_len()
        &&& after.source.spec_position() == wrap_index(
            self.source.spec_position() as int,
            frames as int,
            self.source.spec_len() as int,
        )
        &&& after.playing == self.playing
        &&& after.stage == self.stage
        &&& after.decay == decay
        &&& after.transpose == transpose
    }

    /// A paused source at the start of the clip given as interleaved stereo
    /// samples, without plan or filters, with both parameters applied.
    ///
    /// Fails with `ChannelCount` exactly when `channels` is not two;
    /// otherwise with `UnevenChannels` exactly when the number of samples is
    /// odd, and with `EmptyClip` exactly when there is none.
    pub fn init_audio_state(channels: u16, samples: &[T], decay: u64, transpose: u64) -> (r: Result<
        Self,
        LoadError,
    >)
        ensures
            r is Ok <==> channels == 2 && samples@.len() > 0 && samples@.len() % 2 == 0,
            channels != 2 ==> (r matches Err(e) && e == LoadError::ChannelCount),
            channels == 2 && samples@.len() % 2 == 1 ==> (r matches Err(e) && e
                == LoadError::UnevenChannels),
            channels == 2 && samples@.len() == 0 ==> (r matches Err(e) && e == LoadError::EmptyClip),
            r matches Ok(s) ==> {
                &&& s.source.inv()
                &&& s.source.left() == even_samples(samples@)
                &&& s.source.right() == odd_samples(samples@)
                &&& s.source.spec_position() == 0
                &&& !s.playing
                &&& s.stage is Unplanned
                &&& s.decay == (HotParameter { current: decay, applied: decay })
                &&& s.transpose == (HotParameter { current: transpose, applied: transpose })
            },
    {
        let (left, right) = match load_audio(channels, samples) {
            Ok(pair) => pair,
            Err(e) => {
                return Err(e);
            },
        };
        match SampleSource::new(left, right) {
            Ok(source) => Ok(
                AudioState {
                    source,
                    playing: false,
                    stage: SynthesisStage::new(),
                    decay: HotParameter::new(decay),
                    transpose: HotParameter::new(transpose),
                },
            ),
            Err(e) => Err(e),
        }
    }

    /// Moves the cursor to frame `index`, taken around the clip.
    pub fn set_loc(&mut self, index: usize)
        ensures
            final(self).source.inv(),
            final(self).source.left() == old(self).source.left(),
            final(self).source.right() == old(self).source.right(),
            final(self).source.spec_len() == old(self).source.spec_len(),
            final(self).source.spec_position() == index as int % (old(self).source.spec_len() as int),
            final(self).playing == old(self).playing,
            final(self).stage == old(self).stage,
            final(self).decay == old(self).decay,
            final(self).transpose == old(self).transpose,
    {
        self.source.seek(index);
    }

    /// How far playback has come: the cursor, and the length of the clip it
    /// is a part of.
    pub fn get_progress(&self) -> (r: (usize, usize))
        ensures
            r.0 == self.source.spec_position(),
            r.1 == self.source.spec_len(),
            r.0 < r.1,
    {
        (self.source.position(), self.source.len())
    }

    /// Overwrites the frames of the buffer with the next dry frames, each
    /// sample converted to the buffer's format, and moves the cursor behind
    /// them.
    pub fn write_audio<U, C: Fn(T) -> U>(&mut self, data: &mut [U], convert: &C)
        requires
            forall|a: T| call_requires(convert, (a,)),
        ensures
            old(self).advanced(
                final(self),
                frame_count(old(data)@.len()),
                old(self).decay,
                old(self).transpose,
            ),
            final(data)@.len() == old(data)@.len(),
            forall|k: int|
                0 <= k < frame_count(old(data)@.len()) ==> #[trigger] frame_written(
                    convert,
                    old(self).dry_left(frame_count(old(data)@.len())),
                    old(self).dry_right(frame_count(old(data)@.len())),
                    final(data)@,
                    k,
                ),
            forall|j: int|
                2 * frame_count(old(data)@.len()) <= j < old(data)@.len() ==> final(data)@[j] == old(
                    data,
                )@[j],
    {
        let n: usize = data.len();
        let frames: usize = n / 2;
        let ghost before = data@;
        let ghost start = self.source.spec_position() as int;
        let ghost len = self.source.spec_len() as int;
        let ghost left = old(self).dry_left(frames as nat);
        let ghost right = old(self).dry_right(frames as nat);
        proof {
            use_type_invariant(&self.source);
            self.source.lemma_shape();
            lemma_wrap_step(start, 0, len);
        }
        let mut i: usize = 0;
        while i < frames
            invariant
                forall|a: T| call_requires(convert, (a,)),
                i <= frames,
                n == before.len(),
                frames == n / 2,
                data@.len() == n,
                0 <= start < len,
                old(self).source.left().len() == len,
                old(self).source.right().len() == len,
                left == old(self).dry_left(frames as nat),
                right == old(self).dry_right(frames as nat),
                start == old(self).source.spec_position(),
                len == old(self).source.spec_len(),
                old(self).advanced(self, i as nat, old(self).decay, old(self).transpose),
                forall|k: int| 0 <= k < i ==> #[trigger] frame_written(convert, left, right, data@, k),
                forall|j: int| 2 * i <= j < n ==> data@[j] == before[j],
            decreases frames - i,
        {
            let ghost prev = data@;
            proof {
                lemma_wrap_step(start, i as int, len);
            }
            let (l, r) = self.source.next_frame();
            let a: U = convert(l);
            let b: U = convert(r);
            data[2 * i] = a;
            data[2 * i + 1] = b;
            proof {
                assert forall|k: int| 0 <= k < i + 1 implies #[trigger] frame_written(
                    convert,
                    left,
                    right,
                    data@,
                    k,
                ) by {
                    if k < i {
                        assert(frame_written(convert, left, right, prev, k));
                    } else {
                        assert(left[k] == l);
                        assert(right[k] == r);
                    }
                }
            }
            i = i + 1;
        }
    }

    /// Contributes to one output buffer of a playing source.
    ///
    /// Without filters, the next dry frames are mixed into the buffer, one
    /// frame of the clip into each frame of the buffer, and the parameters
    /// stay as they are. With filters, the buffer stays as it is and the
    /// work for the filters is handed out: the pending edits of decay and
    /// transpose, which count as applied from then on, and the next dry
    /// frames. Either way the cursor moves behind the frames that were read.
    pub fn add_audio<F: Fn(T, T) -> T>(&mut self, data: &mut [T], mix: &F) -> (work: BufferWork<T>)
        requires
            forall|a: T, b: T| call_requires(mix, (a, b)),
        ensures
            !old(self).stage.is_active() ==> {
                &&& work is Dry
                &&& old(self).advanced(
                    final(self),
                    frame_count(old(data)@.len()),
                    old(self).decay,
                    old(self).transpose,
                )
                &&& frames_mixed(
                    mix,
                    old(data)@,
                    old(self).dry_left(frame_count(old(data)@.len())),
                    old(self).dry_right(frame_count(old(data)@.len())),
                    final(data)@,
                    frame_count(old(data)@.len()),
                )
            },
            old(self).stage.is_active() ==> {
                &&& final(data)@ == old(data)@
                &&& old(self).advanced(
                    final(self),
                    frame_count(old(data)@.len()),
                    old(self).decay.settled(),
                    old(self).transpose.settled(),
                )
                &&& work matches BufferWork::Wet { decay, transpose, left, right }
                &&& decay == old(self).decay.pending()
                &&& transpose == old(self).transpose.pending()
                &&& left@ == old(self).dry_left(frame_count(old(data)@.len()))
                &&& right@ == old(self).dry_right(frame_count(old(data)@.len()))
            },
    {
        let n: usize = data.len();
        let frames: usize = n / 2;
        if self.stage.is_active() {
            let decay: Option<u64> = self.decay.take_change();
            let transpose: Option<u64> = self.transpose.take_change();
            let (left, right) = self.source.take_frames(frames);
            return BufferWork::Wet { decay, transpose, left, right };
        }
        let ghost before = data@;
        let ghost start = self.source.spec_position() as int;
        let ghost len = self.source.spec_len() as int;
        let ghost left = old(self).dry_left(frames as nat);
        let ghost right = old(self).dry_right(frames as nat);
        proof {
            use_type_invariant(&self.source);
            self.source.lemma_shape();
            lemma_wrap_step(start, 0, len);
        }
        let mut i: usize = 0;
        while i < frames
            invariant
                forall|a: T, b: T| call_requires(mix, (a, b)),
                i <= frames,
                n == before.len(),
                frames == n / 2,
                data@.len() == n,
                0 <= start < len,
                old(self).source.left().len() == len,
                old(self).source.right().len() == len,
                left == old(self).dry_left(frames as nat),
                right == old(self).dry_right(frames as nat),
                start == old(self).source.spec_position(),
                len == old(self).source.spec_len(),
                old(self).advanced(self, i as nat, old(self).decay, old(self).transpose),
                forall|k: int| 0 <= k < i ==> #[trigger] frame_mixed(mix, before, left, right, data@, k),
                forall|j: int| 2 * i <= j < n ==> data@[j] == before[j],
            decreases frames - i,
        {
            let ghost prev = data@;
            proof {
                lemma_wrap_step(start, i as int, len);
            }
            let (l, r) = self.source.next_frame();
            let a: T = mix(data[2 * i], l);
            let b: T = mix(data[2 * i + 1], r);
            data[2 * i] = a;
            data[2 * i + 1] = b;
            proof {
                assert forall|k: int| 0 <= k < i + 1 implies #[trigger] frame_mixed(
                    mix,
                    before,
                    left,
                    right,
                    data@,
                    k,
                ) by {
                    if k < i {
                        assert(frame_mixed(mix, before, left, right, prev, k));
                    } else {
                        assert(left[k] == l);
                        assert(right[k] == r);
                    }
                }
            }
            i = i + 1;
        }
        BufferWork::Dry
    }

    /// The part of one source in one output buffer: nothing at all while it
    /// is paused, and what `add_audio` does while it plays.
    pub fn mix_into<F: Fn(T, T) -> T>(&mut self, data: &mut [T], mix: &F) -> (work: BufferWork<T>)
        requires
            forall|a: T, b: T| call_requires(mix, (a, b)),
        ensures
            !old(self).playing ==> {
                &&& work is Idle
                &&& final(data)@ == old(data)@
                &&& old(self).advanced(final(self), 0, old(self).decay, old(self).transpose)
            },
            old(self).playing && !old(self).stage.is_active() ==> {
                &&& work is Dry
                &&& old(self).advanced(
                    final(self),
                    frame_count(old(data)@.len()),
                    old(self).decay,
                    old(self).transpose,
                )
                &&& frames_mixed(
                    mix,
                    old(data)@,
                    old(self).dry_left(frame_count(old(data)@.len())),
                    old(self).dry_right(frame_count(old(data)@.len())),
                    final(data)@,
                    frame_count(old(data)@.len()),
                )
            },
            old(self).playing && old(self).stage.is_active() ==> {
                &&& final(data)@ == old(data)@
                &&& old(self).advanced(
                    final(self),
                    frame_count(old(data)@.len()),
                    old(self).decay.settled(),
                    old(self).transpose.settled(),
                )
                &&& work matches BufferWork::Wet { decay, transpose, left, right }
                &&& decay == old(self).decay.pending()
                &&& transpose == old(self).transpose.pending()
                &&& left@ == old(self).dry_left(frame_count(old(data)@.len()))
                &&& right@ == old(self).dry_right(frame_count(old(data)@.len()))
            },
    {
        if self.playing {
            self.add_audio(data, mix)
        } else {
            proof {
                use_type_invariant(&self.source);
                self.source.lemma_shape();
                lemma_wrap_step(
                    self.source.spec_position() as int,
                    0,
                    self.source.spec_len() as int,
                );
            }
            BufferWork::Idle
        }
    }
}

} // verus!
