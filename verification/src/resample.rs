//! The resampling front end: it decides whether frames can pass straight
//! through, cuts the stream into the fixed-size planar batches a windowed-sinc
//! resampler consumes, and puts the resampler's planar output back into
//! interleaved frames.

use crate::error::SetupError;
use crate::frames::lemma_frames_fit;
use crate::frames::lemma_next_frame_start;
use crate::frames::lemma_sample_in_frame;
use crate::frames::lemma_whole_frames_add;
use crate::frames::lemma_whole_frames_subtract;
use vstd::arithmetic::div_mod::lemma_fundamental_div_mod;
use vstd::arithmetic::div_mod::lemma_fundamental_div_mod_converse;
use vstd::arithmetic::div_mod::lemma_small_mod;
use vstd::prelude::*;

verus! {

/// What a resampling front end looks like from outside.
pub struct ResamplerView {
    /// Frames per second of the source.
    pub source_rate: nat,
    /// Frames per second of the device.
    pub target_rate: nat,
    /// Channels per frame.
    pub channels: nat,
    /// Frames per batch.
    pub chunk_frames: nat,
    /// Samples waiting for a full batch, interleaved.
    pub pending: Seq<i16>,
}

/// No resampling is needed when both rates agree.
pub open spec fn passes_through(v: ResamplerView) -> bool {
    v.source_rate == v.target_rate
}

/// The whole frames at the front of an interleaved buffer.
pub open spec fn whole_frames(samples: Seq<i16>, channels: nat) -> Seq<i16> {
    samples.take(((samples.len() as int) / (channels as int)) * channels)
}

/// The planar batch of `frames` frames cut from interleaved `samples`: lane
/// `c` holds channel `c`. The first `filled` frames come from `samples`, the
/// rest is zero.
pub open spec fn planar_of(samples: Seq<i16>, channels: nat, filled: nat, frames: nat) -> Seq<
    Seq<i16>,
> {
    Seq::new(
        channels,
        |c: int|
            Seq::new(
                frames,
                |f: int|
                    if f < filled {
                        samples[f * channels + c]
                    } else {
                        0i16
                    },
            ),
    )
}

/// The lanes of a planar batch as sequences.
pub open spec fn lanes<T>(planar: Seq<Vec<T>>) -> Seq<Seq<T>> {
    planar.map_values(|lane: Vec<T>| lane@)
}

/// Every lane of a planar batch has the length of the first.
pub open spec fn is_rectangular<T>(planar: Seq<Seq<T>>) -> bool {
    forall|c: int| 0 <= c < planar.len() ==> (#[trigger] planar[c]).len() == planar[0].len()
}

/// The interleaved frames of a rectangular planar batch: sample `c` of frame
/// `f` is element `f` of lane `c`.
pub open spec fn interleaved_of<T>(planar: Seq<Seq<T>>) -> Seq<T> {
    Seq::new(
        planar[0].len() * planar.len(),
        |i: int| planar[i % (planar.len() as int)][i / (planar.len() as int)],
    )
}

/// The number of output frames that `frames` input frames amount to at the
/// given rates, rounded down.
pub open spec fn nominal_frames(frames: nat, source_rate: nat, target_rate: nat) -> nat {
    (frames * target_rate) / source_rate
}

/// Batching state in front of a fixed-input-size resampler.
pub struct Resampler {
    source_rate: u32,
    target_rate: u32,
    channels: usize,
    chunk_frames: usize,
    pending: Vec<i16>,
}

impl View for Resampler {
    type V = ResamplerView;

    closed spec fn view(&self) -> ResamplerView {
        ResamplerView {
            source_rate: self.source_rate as nat,
            target_rate: self.target_rate as nat,
            channels: self.channels as nat,
            chunk_frames: self.chunk_frames as nat,
            pending: self.pending@,
        }
    }
}

impl Resampler {
    /// Rates, channel count and batch size are positive, a batch fits in
    /// memory, and whole frames are pending.
    pub closed spec fn wf(self) -> bool {
        &&& self.source_rate > 0
        &&& self.target_rate > 0
        &&& self.channels > 0
        &&& self.chunk_frames > 0
        &&& self.chunk_frames * self.channels <= usize::MAX
        &&& self.pending@.len() % (self.channels as nat) == 0
        &&& (self.source_rate == self.target_rate ==> self.pending@.len() == 0)
    }

    /// What well-formedness says about the view.
    pub proof fn lemma_wf(self)
        requires
            self.wf(),
        ensures
            self@.source_rate > 0,
            self@.target_rate > 0,
            self@.channels > 0,
            self@.chunk_frames > 0,
            self@.chunk_frames * self@.channels <= usize::MAX,
            self@.pending.len() % self@.channels == 0,
            passes_through(self@) ==> self@.pending.len() == 0,
    {
    }

    /// Sets up resampling from `source_rate` to `target_rate` for frames of
    /// `channel_count` channels, in batches of `chunk_frames` frames.
    pub fn configure(
        source_rate: u32,
        target_rate: u32,
        channel_count: usize,
        chunk_frames: usize,
    ) -> (r: Result<Resampler, SetupError>)
        ensures
            (source_rate > 0 && target_rate > 0 && channel_count > 0 && chunk_frames > 0
                && chunk_frames * channel_count <= usize::MAX) <==> r is Ok,
            (source_rate == 0 || target_rate == 0) <==> r == Err::<Resampler, SetupError>(
                SetupError::InvalidSampleRate,
            ),
            (source_rate > 0 && target_rate > 0 && channel_count == 0) <==> r == Err::<
                Resampler,
                SetupError,
            >(SetupError::InvalidChannelCount),
            (source_rate > 0 && target_rate > 0 && channel_count > 0 && (chunk_frames == 0
                || chunk_frames * channel_count > usize::MAX)) <==> r == Err::<
                Resampler,
                SetupError,
            >(SetupError::QueueTooLarge),
            r matches Ok(rs) ==> rs.wf() && rs@ == (ResamplerView {
                source_rate: source_rate as nat,
                target_rate: target_rate as nat,
                channels: channel_count as nat,
                chunk_frames: chunk_frames as nat,
                pending: Seq::empty(),
            }),
    {
        if source_rate == 0 || target_rate == 0 {
            return Err(SetupError::InvalidSampleRate);
        }
        if channel_count == 0 {
            return Err(SetupError::InvalidChannelCount);
        }
        if chunk_frames == 0 || chunk_frames.checked_mul(channel_count).is_none() {
            return Err(SetupError::QueueTooLarge);
        }
        let rs = Resampler {
            source_rate,
            target_rate,
            channels: channel_count,
            chunk_frames,
            pending: Vec::new(),
        };
        proof {
            lemma_small_mod(0, channel_count as nat);
        }
        Ok(rs)
    }

    /// Whether frames pass through untouched because both rates agree.
    pub fn is_passthrough(&self) -> (b: bool)
        ensures
            b == passes_through(self@),
    {
        self.source_rate == self.target_rate
    }

    /// Frames per second of the source.
    pub fn source_rate(&self) -> (n: u32)
        ensures
            n == self@.source_rate,
    {
        self.source_rate
    }

    /// Frames per second of the device.
    pub fn target_rate(&self) -> (n: u32)
        ensures
            n == self@.target_rate,
    {
        self.target_rate
    }

    /// Channels per frame.
    pub fn channels(&self) -> (n: usize)
        ensures
            n == self@.channels,
    {
        self.channels
    }

    /// Frames per batch.
    pub fn chunk_frames(&self) -> (n: usize)
        ensures
            n == self@.chunk_frames,
    {
        self.chunk_frames
    }

    /// Frames waiting for a full batch.
    pub fn pending_frames(&self) -> (n: usize)
        requires
            self.wf(),
        ensures
            n == self@.pending.len() / self@.channels,
    {
        self.pending.len() / self.channels
    }

    /// The number of output frames that `frames` input frames amount to,
    /// rounded down.
    pub fn nominal_output_frames(&self, frames: u64) -> (n: u128)
        requires
            self.wf(),
        ensures
            n == nominal_frames(frames as nat, self@.source_rate, self@.target_rate),
    {
        assert((frames as u128) * (self.target_rate as u128) <= u128::MAX) by (nonlinear_arith)
            requires
                frames <= u64::MAX,
                self.target_rate <= u32::MAX,
        ;
        let product: u128 = (frames as u128) * (self.target_rate as u128);
        product / (self.source_rate as u128)
    }

    /// Takes in the whole frames at the front of `frames` and returns those
    /// that are ready at the target rate without resampling.
    ///
    /// When both rates agree that is every frame taken in, unchanged and in
    /// order. Otherwise the frames are kept for the next batches and nothing
    /// is returned. Samples of a trailing partial frame are ignored.
    pub fn push(&mut self, frames: &[i16]) -> (ready: Vec<i16>)
        requires
            old(self).wf(),
        ensures
            final(self).wf(),
            passes_through(old(self)@) ==> ready@ == whole_frames(frames@, old(self)@.channels)
                && final(self)@ == old(self)@,
            !passes_through(old(self)@) ==> ready@.len() == 0 && final(self)@ == (ResamplerView {
                pending: old(self)@.pending + whole_frames(frames@, old(self)@.channels),
                ..old(self)@
            }),
    {
        let ch: usize = self.channels;
        let total: usize = frames.len();
        let whole: usize = total / ch;
        proof {
            lemma_frames_fit(whole as int, whole as int, total as int, ch as int);
        }
        let usable: usize = whole * ch;
        let mut ready: Vec<i16> = Vec::new();
        if self.source_rate == self.target_rate {
            let mut k: usize = 0;
            while k < usable
                invariant
                    k <= usable <= total,
                    total == frames@.len(),
                    ready@ == frames@.take(k as int),
                decreases usable - k,
            {
                ready.push(frames[k]);
                k += 1;
                assert(ready@ =~= frames@.take(k as int));
            }
        } else {
            let mut k: usize = 0;
            while k < usable
                invariant
                    k <= usable <= total,
                    total == frames@.len(),
                    self.source_rate == old(self).source_rate,
                    self.target_rate == old(self).target_rate,
                    self.channels == old(self).channels,
                    self.chunk_frames == old(self).chunk_frames,
                    self.pending@ == old(self).pending@ + frames@.take(k as int),
                decreases usable - k,
            {
                self.pending.push(frames[k]);
                k += 1;
                assert(self.pending@ =~= old(self).pending@ + frames@.take(k as int));
            }
            proof {
                lemma_whole_frames_add(
                    old(self).pending@.len() as int,
                    (total / ch) as int,
                    ch as int,
                );
            }
        }
        ready
    }

    /// Cuts the first `take` pending frames into a planar batch of
    /// `chunk_frames` frames, padding with zeros.
    fn cut(&mut self, take: usize) -> (chunk: Vec<Vec<i16>>)
        requires
            old(self).wf(),
            take <= old(self)@.chunk_frames,
            take * old(self)@.channels <= old(self)@.pending.len(),
        ensures
            final(self).wf(),
            lanes(chunk@) == planar_of(
                old(self)@.pending,
                old(self)@.channels,
                take as nat,
                old(self)@.chunk_frames,
            ),
            final(self)@ == (ResamplerView {
                pending: old(self)@.pending.skip(take * old(self)@.channels),
                ..old(self)@
            }),
    {
        let ch: usize = self.channels;
        let n: usize = self.chunk_frames;
        let len: usize = self.pending.len();
        let ghost want = planar_of(self.pending@, ch as nat, take as nat, n as nat);
        let mut chunk: Vec<Vec<i16>> = Vec::new();
        let mut c: usize = 0;
        while c < ch
            invariant
                c <= ch,
                ch == self.channels,
                n == self.chunk_frames,
                len == self.pending@.len(),
                take <= n,
                take * ch <= len,
                want == planar_of(self.pending@, ch as nat, take as nat, n as nat),
                chunk@.len() == c,
                forall|k: int| 0 <= k < c ==> (#[trigger] chunk@[k])@ == want[k],
            decreases ch - c,
        {
            let mut lane: Vec<i16> = Vec::new();
            let mut f: usize = 0;
            while f < n
                invariant
                    f <= n,
                    c < ch,
                    ch == self.channels,
                    len == self.pending@.len(),
                    take <= n,
                    take * ch <= len,
                    want == planar_of(self.pending@, ch as nat, take as nat, n as nat),
                    lane@.len() == f,
                    forall|j: int| 0 <= j < f ==> lane@[j] == want[c as int][j],
                decreases n - f,
            {
                let v: i16 = if f < take {
                    proof {
                        lemma_sample_in_frame(f as int, take as int, ch as int);
                    }
                    self.pending[f * ch + c]
                } else {
                    0i16
                };
                lane.push(v);
                f += 1;
            }
            assert(lane@ =~= want[c as int]);
            chunk.push(lane);
            c += 1;
        }
        let used: usize = take * ch;
        let rest = self.pending.split_off(used);
        self.pending = rest;
        proof {
            assert(lanes(chunk@) =~= want);
            assert(self.pending@ =~= old(self).pending@.skip(used as int));
            lemma_fundamental_div_mod_converse(used as int, ch as int, take as int, 0);
            lemma_whole_frames_subtract(len as int, used as int, ch as int);
        }
        chunk
    }

    /// The next full batch, if enough frames are pending: its frames leave
    /// the pending queue in order, one lane per channel.
    pub fn take_chunk(&mut self) -> (r: Option<Vec<Vec<i16>>>)
        requires
            old(self).wf(),
        ensures
            final(self).wf(),
            old(self)@.pending.len() >= old(self)@.chunk_frames * old(self)@.channels ==> {
                &&& r matches Some(chunk)
                &&& lanes(chunk@) == planar_of(
                    old(self)@.pending,
                    old(self)@.channels,
                    old(self)@.chunk_frames,
                    old(self)@.chunk_frames,
                )
                &&& final(self)@ == (ResamplerView {
                    pending: old(self)@.pending.skip(
                        (old(self)@.chunk_frames * old(self)@.channels) as int,
                    ),
                    ..old(self)@
                })
            },
            old(self)@.pending.len() < old(self)@.chunk_frames * old(self)@.channels ==> r is None
                && final(self)@ == old(self)@,
    {
        let need: usize = self.chunk_frames * self.channels;
        if self.pending.len() >= need {
            Some(self.cut(self.chunk_frames))
        } else {
            None
        }
    }

    /// The last batch of a stream: whatever is pending, up to one batch,
    /// padded with zeros to full size. `None` when nothing is pending.
    pub fn flush(&mut self) -> (r: Option<Vec<Vec<i16>>>)
        requires
            old(self).wf(),
        ensures
            final(self).wf(),
            old(self)@.pending.len() == 0 ==> r is None && final(self)@ == old(self)@,
            old(self)@.pending.len() > 0 ==> {
                let take = crate::frames::min_frames(
                    (old(self)@.pending.len() / old(self)@.channels) as int,
                    old(self)@.chunk_frames as int,
                ) as nat;
                &&& r matches Some(chunk)
                &&& lanes(chunk@) == planar_of(
                    old(self)@.pending,
                    old(self)@.channels,
                    take,
                    old(self)@.chunk_frames,
                )
                &&& final(self)@ == (ResamplerView {
                    pending: old(self)@.pending.skip((take * old(self)@.channels) as int),
                    ..old(self)@
                })
            },
    {
        let len: usize = self.pending.len();
        if len == 0 {
            return None;
        }
        let have: usize = len / self.channels;
        let take: usize = if have <= self.chunk_frames {
            have
        } else {
            self.chunk_frames
        };
        proof {
            lemma_frames_fit(take as int, have as int, len as int, self.channels as int);
        }
        Some(self.cut(take))
    }

    /// Puts a planar batch, one lane per channel, back into interleaved
    /// frames. `None` unless there is one lane for each channel and all lanes
    /// have the same length.
    pub fn interleave<T: Copy>(&self, planar: &Vec<Vec<T>>) -> (r: Option<Vec<T>>)
        requires
            self.wf(),
        ensures
            (planar@.len() == self@.channels && is_rectangular(lanes(planar@))) <==> r is Some,
            r matches Some(frames) ==> frames@ == interleaved_of(lanes(planar@)),
    {
        let ch: usize = planar.len();
        if ch != self.channels {
            return None;
        }
        let frames: usize = planar[0].len();
        let mut c: usize = 1;
        while c < ch
            invariant
                1 <= c <= ch,
                ch == planar@.len(),
                frames == planar@[0]@.len(),
                forall|k: int| 0 <= k < c ==> (#[trigger] planar@[k])@.len() == frames,
            decreases ch - c,
        {
            if planar[c].len() != frames {
                proof {
                    assert(lanes(planar@)[c as int].len() != lanes(planar@)[0].len());
                }
                return None;
            }
            c += 1;
        }
        let ghost want = interleaved_of(lanes(planar@));
        let mut out: Vec<T> = Vec::new();
        let mut f: usize = 0;
        while f < frames
            invariant
                f <= frames,
                ch > 0,
                ch == planar@.len(),
                frames == planar@[0]@.len(),
                forall|k: int| 0 <= k < ch ==> (#[trigger] planar@[k])@.len() == frames,
                want == interleaved_of(lanes(planar@)),
                out@.len() == f * ch,
                forall|i: int| 0 <= i < out@.len() ==> out@[i] == want[i],
            decreases frames - f,
        {
            let mut k: usize = 0;
            while k < ch
                invariant
                    k <= ch,
                    f < frames,
                    ch == planar@.len(),
                    frames == planar@[0]@.len(),
                    forall|j: int| 0 <= j < ch ==> (#[trigger] planar@[j])@.len() == frames,
                    want == interleaved_of(lanes(planar@)),
                    out@.len() == f * ch + k,
                    forall|i: int| 0 <= i < out@.len() ==> out@[i] == want[i],
                decreases ch - k,
            {
                proof {
                    lemma_fundamental_div_mod_converse(
                        f * ch + k,
                        ch as int,
                        f as int,
                        k as int,
                    );
                    lemma_sample_in_frame(f as int, frames as int, ch as int);
                }
                out.push(planar[k][f]);
                k += 1;
            }
            proof {
                lemma_next_frame_start(f as int, ch as int);
            }
            f += 1;
        }
        proof {
            assert(out@ =~= want);
        }
        Some(out)
    }
}

/// Frames that pass through come out as they went in: when both rates agree,
/// what `push` returns for a sequence of whole frames is that sequence.
pub proof fn lemma_pass_through_is_identity(frames: Seq<i16>, channels: nat)
    requires
        channels > 0,
        frames.len() % channels == 0,
    ensures
        whole_frames(frames, channels) == frames,
{
    lemma_fundamental_div_mod(frames.len() as int, channels as int);
    assert(((frames.len() as int) / (channels as int)) * channels == frames.len())
        by (nonlinear_arith)
        requires
            frames.len() == channels * ((frames.len() as int) / (channels as int)),
    ;
    assert(frames.take(frames.len() as int) =~= frames);
}

/// Cutting frames into a planar batch and interleaving the batch again gives
/// the frames back, in order: batching reorders nothing.
pub proof fn lemma_batching_keeps_order(samples: Seq<i16>, channels: nat, frames: nat)
    requires
        channels > 0,
        samples.len() == frames * channels,
    ensures
        is_rectangular(planar_of(samples, channels, frames, frames)),
        interleaved_of(planar_of(samples, channels, frames, frames)) == samples,
{
    let planar = planar_of(samples, channels, frames, frames);
    let back = interleaved_of(planar);
    assert(back.len() == samples.len());
    assert forall|i: int| 0 <= i < samples.len() implies back[i] == samples[i] by {
        let c = i % (channels as int);
        let f = i / (channels as int);
        lemma_fundamental_div_mod(i, channels as int);
        assert(0 <= f < frames) by (nonlinear_arith)
            requires
                i == channels * f + c,
                0 <= c < channels,
                0 <= i < frames * channels,
        ;
        assert(f * channels + c == i) by (nonlinear_arith)
            requires
                i == channels * f + c,
        ;
    }
    assert(back =~= samples);
}

/// The nominal output count is within one frame of the exact ratio: it is the
/// largest whole number of frames that does not exceed `frames * target_rate
/// / source_rate`.
pub proof fn lemma_nominal_frames_is_close(frames: nat, source_rate: nat, target_rate: nat)
    requires
        source_rate > 0,
    ensures
        nominal_frames(frames, source_rate, target_rate) * source_rate <= frames * target_rate,
        frames * target_rate < (nominal_frames(frames, source_rate, target_rate) + 1)
            * source_rate,
        source_rate == target_rate ==> nominal_frames(frames, source_rate, target_rate) == frames,
{
    let x = (frames * target_rate) as int;
    let d = source_rate as int;
    lemma_fundamental_div_mod(x, d);
    assert((x / d) * d <= x && x < (x / d + 1) * d) by (nonlinear_arith)
        requires
            x == d * (x / d) + x % d,
            0 <= x % d < d,
    ;
    if source_rate == target_rate {
        lemma_fundamental_div_mod_converse(x, d, frames as int, 0);
    }
}

} // verus!
