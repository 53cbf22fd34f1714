//! The real-time renderer: it drains a bounded queue of frames into the
//! device's interleaved output buffer and pads with silence when the queue
//! runs dry.

use crate::error::SetupError;
use crate::frames::lemma_frames_fit;
use crate::frames::lemma_next_frame_start;
use crate::frames::lemma_sample_in_frame;
use crate::frames::lemma_whole_frames_add;
use crate::frames::lemma_whole_frames_subtract;
use crate::frames::min_frames;
use crate::ring::SampleRing;
use vstd::arithmetic::div_mod::lemma_fundamental_div_mod;
use vstd::arithmetic::div_mod::lemma_fundamental_div_mod_converse;
use vstd::prelude::*;

verus! {

/// Sample `i` of a device buffer with `dev` channels that is rendered from
/// `queued`, an interleaved queue of frames with `src` channels, when the
/// first `taken` frames of the queue are played.
///
/// A one-channel source feeds every device channel. Otherwise device channel
/// `c` plays source channel `c`; source channels the device lacks are dropped
/// and device channels the source lacks stay silent. Everything after the
/// last played frame is silence.
pub open spec fn rendered_sample<T>(
    queued: Seq<T>,
    src: int,
    dev: int,
    silence: T,
    taken: int,
    i: int,
) -> T {
    let f = i / dev;
    let c = i % dev;
    if f < taken {
        if src == 1 {
            queued[f]
        } else if c < src {
            queued[f * src + c]
        } else {
            silence
        }
    } else {
        silence
    }
}

/// The whole device buffer of `len` samples rendered from `queued`.
pub open spec fn rendered<T>(queued: Seq<T>, src: int, dev: int, silence: T, len: int) -> Seq<T> {
    let taken = min_frames(len / dev, (queued.len() as int) / src);
    Seq::new(len as nat, |i: int| rendered_sample(queued, src, dev, silence, taken, i))
}

/// Consumer side of the playback pipeline.
///
/// Frames that were decoded, resampled and converted to the device's sample
/// type are queued here in source channel layout; `fill_buf` plays them into
/// the buffer the audio device hands to its callback.
pub struct AudioBufWriter<T> {
    channels: usize,
    source_channels: usize,
    ring: SampleRing<T>,
    silence: T,
    finished: bool,
    underruns: u64,
}

/// What a renderer looks like from outside.
pub struct WriterView<T> {
    /// Channels per frame of the device buffer.
    pub channels: nat,
    /// Channels per queued frame.
    pub source_channels: nat,
    /// Most frames the queue can hold.
    pub capacity_frames: nat,
    /// The sample written where there is nothing to play.
    pub silence: T,
    /// The queued samples, oldest first, interleaved in source layout.
    pub queued: Seq<T>,
    /// Whether the producer has announced the end of the stream.
    pub finished: bool,
    /// Calls of `fill_buf` that ran out of frames before the end of the stream.
    pub underruns: nat,
}

impl<T> WriterView<T> {
    /// Frames waiting in the queue.
    pub open spec fn queued_frames(self) -> nat {
        self.queued.len() / self.source_channels
    }

    /// The device buffer of `len` samples that the next call of `fill_buf`
    /// renders.
    pub open spec fn render(self, len: nat) -> Seq<T> {
        rendered(
            self.queued,
            self.source_channels as int,
            self.channels as int,
            self.silence,
            len as int,
        )
    }

    /// Frames that the next call of `fill_buf` plays into a device buffer of
    /// `len` samples.
    pub open spec fn plays(self, len: nat) -> nat {
        played_frames(self.queued.len(), self.source_channels, self.channels, len)
    }
}

impl<T> View for AudioBufWriter<T> {
    type V = WriterView<T>;

    closed spec fn view(&self) -> WriterView<T> {
        WriterView {
            channels: self.channels as nat,
            source_channels: self.source_channels as nat,
            capacity_frames: self.ring.capacity_spec() / (self.source_channels as nat),
            silence: self.silence,
            queued: self.ring@,
            finished: self.finished,
            underruns: self.underruns as nat,
        }
    }
}

impl<T> AudioBufWriter<T> {
    /// The queue holds whole frames and both channel counts are positive.
    pub closed spec fn wf(self) -> bool {
        &&& self.ring.wf()
        &&& self.channels > 0
        &&& self.source_channels > 0
        &&& self.ring@.len() % (self.source_channels as nat) == 0
        &&& self.ring.capacity_spec() % (self.source_channels as nat) == 0
    }

    /// What well-formedness says about the view: channel counts are
    /// positive and the queue holds whole frames, no more than its capacity.
    pub proof fn lemma_wf(self)
        requires
            self.wf(),
        ensures
            self@.channels > 0,
            self@.source_channels > 0,
            self@.queued.len() % self@.source_channels == 0,
            self@.queued_frames() <= self@.capacity_frames,
    {
        self.ring.lemma_bounded();
        lemma_whole_frames_subtract(
            self.ring.capacity_spec() as int,
            self.ring@.len() as int,
            self.source_channels as int,
        );
    }
}

/// Frames that one call plays into a device buffer of `out_len` samples: as
/// many whole frames as the buffer holds, or all that are queued if fewer.
pub open spec fn played_frames(queued_len: nat, src: nat, dev: nat, out_len: nat) -> nat {
    min_frames((out_len as int) / (dev as int), (queued_len as int) / (src as int)) as nat
}

/// The underrun counter after a call that wanted `wanted` frames and got
/// `taken`: it advances, saturating, when frames were missing although the
/// stream had not ended.
pub open spec fn underruns_after(before: nat, finished: bool, wanted: int, taken: int) -> nat {
    if taken < wanted && !finished && before < u64::MAX {
        before + 1
    } else {
        before
    }
}

impl<T: Copy> AudioBufWriter<T> {
    /// Creates a renderer for a device with `channels` channels that is fed
    /// frames of `source_channels` channels and queues at most
    /// `capacity_frames` of them. `silence` is the device's sample for zero
    /// amplitude.
    pub fn new(
        channels: usize,
        source_channels: usize,
        capacity_frames: usize,
        silence: T,
    ) -> (r: Result<Self, SetupError>)
        ensures
            (channels > 0 && source_channels > 0 && capacity_frames * source_channels
                <= usize::MAX) <==> r is Ok,
            (channels == 0 || source_channels == 0) <==> r == Err::<Self, SetupError>(
                SetupError::InvalidChannelCount,
            ),
            (channels > 0 && source_channels > 0 && capacity_frames * source_channels > usize::MAX)
                <==> r == Err::<Self, SetupError>(SetupError::QueueTooLarge),
            r matches Ok(w) ==> w.wf() && w@ == (WriterView {
                channels: channels as nat,
                source_channels: source_channels as nat,
                capacity_frames: capacity_frames as nat,
                silence,
                queued: Seq::empty(),
                finished: false,
                underruns: 0,
            }),
    {
        if channels == 0 || source_channels == 0 {
            return Err(SetupError::InvalidChannelCount);
        }
        match capacity_frames.checked_mul(source_channels) {
            None => Err(SetupError::QueueTooLarge),
            Some(total) => {
                let ring = SampleRing::new(total, silence);
                let w = AudioBufWriter {
                    channels,
                    source_channels,
                    ring,
                    silence,
                    finished: false,
                    underruns: 0,
                };
                proof {
                    lemma_fundamental_div_mod_converse(
                        total as int,
                        source_channels as int,
                        capacity_frames as int,
                        0,
                    );
                    lemma_fundamental_div_mod_converse(0, source_channels as int, 0, 0);
                    assert(w@.queued =~= Seq::<T>::empty());
                }
                Ok(w)
            },
        }
    }

    /// Channels per frame of the device buffer.
    pub fn channels(&self) -> (n: usize)
        ensures
            n == self@.channels,
    {
        self.channels
    }

    /// Channels per queued frame.
    pub fn source_channels(&self) -> (n: usize)
        ensures
            n == self@.source_channels,
    {
        self.source_channels
    }

    /// Frames waiting in the queue.
    pub fn queued_frames(&self) -> (n: usize)
        requires
            self.wf(),
        ensures
            n == self@.queued_frames(),
    {
        self.ring.len() / self.source_channels
    }

    /// Frames that can still be queued.
    pub fn free_frames(&self) -> (n: usize)
        requires
            self.wf(),
        ensures
            n == self@.capacity_frames - self@.queued_frames(),
    {
        proof {
            self.ring.lemma_bounded();
            lemma_whole_frames_subtract(
                self.ring.capacity_spec() as int,
                self.ring@.len() as int,
                self.source_channels as int,
            );
        }
        self.ring.free() / self.source_channels
    }

    /// Whether the producer has announced the end of the stream.
    pub fn is_finished(&self) -> (b: bool)
        ensures
            b == self@.finished,
    {
        self.finished
    }

    /// Calls of `fill_buf` that ran out of frames before the end of the stream.
    pub fn underruns(&self) -> (n: u64)
        ensures
            n == self@.underruns,
    {
        self.underruns
    }

    /// Announces that no more frames will be queued: from now on a short
    /// queue is the end of the stream, not an underrun.
    pub fn finish(&mut self)
        requires
            old(self).wf(),
        ensures
            final(self).wf(),
            final(self)@ == (WriterView { finished: true, ..old(self)@ }),
    {
        self.finished = true;
    }

    /// Queues the whole frames at the front of `samples`, as many as fit, and
    /// returns how many frames were taken. Samples of a trailing partial frame
    /// are never queued.
    pub fn queue(&mut self, samples: &[T]) -> (accepted: usize)
        requires
            old(self).wf(),
        ensures
            final(self).wf(),
            accepted == min_frames(
                (samples@.len() as int) / (old(self)@.source_channels as int),
                old(self)@.capacity_frames - old(self)@.queued_frames(),
            ),
            final(self)@ == (WriterView {
                queued: old(self)@.queued + samples@.take(accepted * old(self)@.source_channels),
                ..old(self)@
            }),
    {
        let src: usize = self.source_channels;
        let total: usize = samples.len();
        let offered: usize = total / src;
        let room: usize = self.ring.free() / src;
        let accepted: usize = if offered <= room {
            offered
        } else {
            room
        };
        proof {
            let cap = self.ring.capacity_spec() as int;
            let len = self.ring@.len() as int;
            self.ring.lemma_bounded();
            lemma_whole_frames_subtract(cap, len, src as int);
            lemma_frames_fit(accepted as int, offered as int, total as int, src as int);
            lemma_frames_fit(accepted as int, room as int, cap - len, src as int);
        }
        let count: usize = accepted * src;
        self.ring.push_range(samples, 0, count);
        proof {
            lemma_whole_frames_add(old(self).ring@.len() as int, accepted as int, src as int);
        }
        accepted
    }

    /// Fills the device buffer `output`, frame by frame, from the queue.
    ///
    /// The buffer keeps its length and every sample of it is written. Queued
    /// frames are played in order and leave the queue; frames that do not fit
    /// stay queued for the next call. Where the queue runs out, and in a
    /// trailing partial frame, the buffer holds silence. This never waits for
    /// the producer.
    pub fn fill_buf(&mut self, output: &mut [T])
        requires
            old(self).wf(),
        ensures
            final(self).wf(),
            final(output)@ == old(self)@.render(old(output)@.len()),
            final(self)@ == (WriterView {
                queued: old(self)@.queued.skip(
                    (old(self)@.plays(old(output)@.len()) * old(self)@.source_channels) as int,
                ),
                underruns: underruns_after(
                    old(self)@.underruns,
                    old(self)@.finished,
                    (old(output)@.len() as int) / (old(self)@.channels as int),
                    old(self)@.plays(old(output)@.len()) as int,
                ),
                ..old(self)@
            }),
    {
        let n: usize = output.len();
        let dev: usize = self.channels;
        let src: usize = self.source_channels;
        let silence: T = self.silence;
        let wanted: usize = n / dev;
        let avail: usize = self.ring.len() / src;
        let taken: usize = if wanted <= avail {
            wanted
        } else {
            avail
        };
        let ghost queued = self.ring@;
        proof {
            lemma_frames_fit(taken as int, avail as int, queued.len() as int, src as int);
        }
        let mut i: usize = 0;
        let mut f: usize = 0;
        let mut c: usize = 0;
        let mut base: usize = 0;
        while i < n
            invariant
                self.ring.wf(),
                self.ring@ == queued,
                n == output@.len(),
                dev > 0,
                src > 0,
                i <= n,
                c < dev,
                i == f * dev + c,
                taken * src <= queued.len(),
                queued.len() <= usize::MAX,
                f <= taken ==> base == f * src,
                forall|j: int|
                    0 <= j < i ==> output@[j] == rendered_sample(
                        queued,
                        src as int,
                        dev as int,
                        silence,
                        taken as int,
                        j,
                    ),
            decreases n - i,
        {
            proof {
                lemma_fundamental_div_mod_converse(i as int, dev as int, f as int, c as int);
                if f < taken {
                    lemma_sample_in_frame(f as int, taken as int, src as int);
                }
                lemma_next_frame_start(f as int, dev as int);
                lemma_next_frame_start(f as int, src as int);
            }
            let v: T = if f < taken {
                if src == 1 {
                    self.ring.get(f)
                } else if c < src {
                    self.ring.get(base + c)
                } else {
                    silence
                }
            } else {
                silence
            };
            output[i] = v;
            i += 1;
            c += 1;
            if c == dev {
                c = 0;
                if f < taken {
                    base += src;
                }
                f += 1;
            }
        }
        if taken < wanted && !self.finished && self.underruns < u64::MAX {
            self.underruns += 1;
        }
        self.ring.discard(taken * src);
        proof {
            lemma_fundamental_div_mod_converse((taken * src) as int, src as int, taken as int, 0);
            lemma_whole_frames_subtract(queued.len() as int, (taken * src) as int, src as int);
            assert(output@ =~= rendered(
                queued,
                src as int,
                dev as int,
                silence,
                n as int,
            ));
        }
    }
}

/// Writes `silence` to every sample of `output`: what a callback does when it
/// cannot reach the queue at all.
pub fn fill_silence<T: Copy>(output: &mut [T], silence: T)
    ensures
        final(output)@ == Seq::new(old(output)@.len(), |i: int| silence),
{
    let n: usize = output.len();
    let mut i: usize = 0;
    while i < n
        invariant
            i <= n,
            n == output@.len(),
            forall|j: int| 0 <= j < i ==> output@[j] == silence,
        decreases n - i,
    {
        output[i] = silence;
        i += 1;
    }
    assert(output@ =~= Seq::new(n as nat, |i: int| silence));
}

/// The device buffer is never left short, and past the last played frame it
/// holds nothing but silence.
///
/// Whatever is queued, a buffer of `len` samples is rendered to exactly `len`
/// samples. Every sample after the frames that were played equals `silence`,
/// so once the stream has ended and the queue is empty the whole buffer is
/// silence.
pub proof fn lemma_buffer_is_filled_and_padded<T>(
    queued: Seq<T>,
    src: nat,
    dev: nat,
    silence: T,
    len: nat,
)
    requires
        src > 0,
        dev > 0,
    ensures
        rendered(queued, src as int, dev as int, silence, len as int).len() == len,
        forall|i: int|
            played_frames(queued.len(), src, dev, len) * dev <= i < len ==> rendered(
                queued,
                src as int,
                dev as int,
                silence,
                len as int,
            )[i] == silence,
        queued.len() < src ==> rendered(queued, src as int, dev as int, silence, len as int)
            == Seq::new(len, |i: int| silence),
{
    let out = rendered(queued, src as int, dev as int, silence, len as int);
    let played = played_frames(queued.len(), src, dev, len);
    assert forall|i: int| played * dev <= i < len implies out[i] == silence by {
        lemma_fundamental_div_mod(i, dev as int);
        assert(i / (dev as int) >= played) by (nonlinear_arith)
            requires
                i == dev * (i / (dev as int)) + i % (dev as int),
                0 <= i % (dev as int) < dev,
                played * dev <= i,
                dev > 0,
        ;
    }
    if queued.len() < src {
        vstd::arithmetic::div_mod::lemma_basic_div(queued.len() as int, src as int);
        assert(played == 0) by {
            vstd::arithmetic::div_mod::lemma_div_pos_is_pos(len as int, dev as int);
        }
        assert(out =~= Seq::new(len, |i: int| silence));
    }
}

/// Where each played sample comes from.
///
/// Device channel `c` of played frame `f` holds the only channel of a
/// one-channel source, else source channel `c` of the same frame, else
/// silence when the source has no such channel. Frames are played in the
/// order in which they were queued.
pub proof fn lemma_played_frame<T>(
    queued: Seq<T>,
    src: nat,
    dev: nat,
    silence: T,
    len: nat,
    f: int,
    c: int,
)
    requires
        src > 0,
        dev > 0,
        0 <= f < played_frames(queued.len(), src, dev, len),
        0 <= c < dev,
    ensures
        0 <= f * dev + c < len,
        src == 1 ==> f < queued.len(),
        c < src ==> f * src + c < queued.len(),
        rendered(queued, src as int, dev as int, silence, len as int)[f * dev + c] == (if src
            == 1 {
            queued[f]
        } else if c < src {
            queued[f * src + c]
        } else {
            silence
        }),
{
    let played = played_frames(queued.len(), src, dev, len) as int;
    let i = f * dev + c;
    lemma_frames_fit(played, (len as int) / (dev as int), len as int, dev as int);
    lemma_frames_fit(played, (queued.len() as int) / (src as int), queued.len() as int, src as int);
    lemma_sample_in_frame(f, played, dev as int);
    lemma_sample_in_frame(f, played, src as int);
    lemma_fundamental_div_mod_converse(i, dev as int, f, c);
}

/// A one-channel source is heard on every device channel: each played frame
/// holds the source's sample for that instant in all of its channels.
pub proof fn lemma_mono_is_duplicated<T>(
    queued: Seq<T>,
    dev: nat,
    silence: T,
    len: nat,
    f: int,
    c: int,
)
    requires
        dev > 0,
        0 <= f < played_frames(queued.len(), 1, dev, len),
        0 <= c < dev,
    ensures
        0 <= f * dev + c < len,
        f < queued.len(),
        rendered(queued, 1, dev as int, silence, len as int)[f * dev + c] == queued[f],
{
    lemma_played_frame(queued, 1, dev, silence, len, f, c);
}

/// Frames are heard in the order in which they were queued.
///
/// When the device has as many channels as the source, the played part of
/// the device buffer is the front of the queue, sample for sample.
pub proof fn lemma_frames_keep_their_order<T>(queued: Seq<T>, channels: nat, silence: T, len: nat)
    requires
        channels > 0,
    ensures
        played_frames(queued.len(), channels, channels, len) * channels <= len,
        played_frames(queued.len(), channels, channels, len) * channels <= queued.len(),
        rendered(queued, channels as int, channels as int, silence, len as int).take(
            (played_frames(queued.len(), channels, channels, len) * channels) as int,
        ) == queued.take((played_frames(queued.len(), channels, channels, len) * channels) as int),
{
    let played = played_frames(queued.len(), channels, channels, len) as int;
    let out = rendered(queued, channels as int, channels as int, silence, len as int);
    let ch = channels as int;
    lemma_frames_fit(played, (len as int) / ch, len as int, ch);
    lemma_frames_fit(played, (queued.len() as int) / ch, queued.len() as int, ch);
    assert forall|i: int| 0 <= i < played * ch implies out[i] == queued[i] by {
        let f = i / ch;
        let c = i % ch;
        lemma_fundamental_div_mod(i, ch);
        assert(0 <= f < played) by (nonlinear_arith)
            requires
                i == ch * f + c,
                0 <= c < ch,
                0 <= i < played * ch,
        ;
        assert(f * ch + c == i) by (nonlinear_arith)
            requires
                i == ch * f + c,
        ;
        if ch == 1 {
            assert(f == i);
        }
    }
    assert(out.take(played * ch) =~= queued.take(played * ch));
}

} // verus!
