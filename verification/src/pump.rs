//! The producer side of the pipeline: it pulls blocks from the decode
//! session, runs them through the resampling front end and says what has to
//! be done next to keep the renderer's queue fed.
//!
//! The work it hands out is done elsewhere: converting samples to the
//! device's type, running the resampler on a batch, queueing the result.

use crate::decode::DecodeSession;
use crate::error::SetupError;
use crate::frames::lemma_frames_fit;
use crate::frames::lemma_whole_frames_subtract;
use crate::resample::lanes;
use crate::resample::passes_through;
use crate::resample::planar_of;
use crate::resample::lemma_pass_through_is_identity;
use crate::resample::Resampler;
use vstd::arithmetic::div_mod::lemma_fundamental_div_mod_converse;
use vstd::prelude::*;

verus! {

/// What the producer has to do next.
#[derive(Clone, Debug, PartialEq, Eq)]
pub enum Work {
    /// These interleaved frames are at the device's rate already: convert
    /// them and queue them.
    Queue(Vec<i16>),
    /// Resample this planar batch, interleave what comes out and queue it.
    Resample(Vec<Vec<i16>>),
    /// The queue has no room for what would come next: try again later.
    Wait,
    /// Every decoded frame has been handed out: the stream is over.
    Finish,
}

/// What a pump looks like from outside.
pub struct PumpView {
    /// Channels per frame.
    pub channels: nat,
    /// Frames per second of the source.
    pub source_rate: nat,
    /// Frames per second of the device.
    pub target_rate: nat,
    /// Frames per resampling batch.
    pub chunk_frames: nat,
    /// Free frames the queue must have before a batch is handed out.
    pub batch_room: nat,
    /// Every sample the decode session has handed to the pump so far, in
    /// order.
    pub taken: Seq<i16>,
    /// Every sample handed out as work so far, in order.
    pub given: Seq<i16>,
    /// Whether the decode session is over.
    pub ended: bool,
    /// Outcomes of the decoder passed over so far.
    pub skipped: nat,
}

/// The producer's state: the decode session, the resampling front end and
/// the frames that are decoded but not yet handed out.
#[verifier::reject_recursive_types(R)]
pub struct Pump<R> {
    session: DecodeSession<R>,
    resampler: Resampler,
    outbox: Vec<i16>,
    batch_room: usize,
    lead: Ghost<Seq<i16>>,
    given: Ghost<Seq<i16>>,
}

impl<R> View for Pump<R> {
    type V = PumpView;

    closed spec fn view(&self) -> PumpView {
        PumpView {
            channels: self.resampler@.channels,
            source_rate: self.resampler@.source_rate,
            target_rate: self.resampler@.target_rate,
            chunk_frames: self.resampler@.chunk_frames,
            batch_room: self.batch_room as nat,
            taken: self.session@.delivered.skip(self.lead@.len() as int),
            given: self.given@,
            ended: self.session@.ended,
            skipped: self.session@.skipped,
        }
    }
}

/// `shorter` is the beginning of `longer`.
pub open spec fn is_prefix(shorter: Seq<i16>, longer: Seq<i16>) -> bool {
    shorter.len() <= longer.len() && longer.take(shorter.len() as int) == shorter
}

/// Every sequence begins with itself, and with whatever it is extended from.
pub proof fn lemma_prefix(a: Seq<i16>, b: Seq<i16>)
    ensures
        is_prefix(a, a),
        is_prefix(a, a + b),
        (a + b).skip(a.len() as int) == b,
{
    assert(a.take(a.len() as int) =~= a);
    assert((a + b).take(a.len() as int) =~= a);
    assert((a + b).skip(a.len() as int) =~= b);
}

/// Nothing but the stream's progress differs between two views of a pump.
pub open spec fn same_setup(a: PumpView, b: PumpView) -> bool {
    &&& a.channels == b.channels
    &&& a.source_rate == b.source_rate
    &&& a.target_rate == b.target_rate
    &&& a.chunk_frames == b.chunk_frames
    &&& a.batch_room == b.batch_room
}

impl<R> Pump<R> {
    /// Both parts are well-formed and agree on the stream's shape, and what
    /// was taken from the decoder is what was handed out followed by what is
    /// still held back, in order.
    pub closed spec fn wf(self) -> bool {
        &&& self.session.wf()
        &&& self.resampler.wf()
        &&& self.resampler@.channels == self.session@.channels
        &&& self.resampler@.source_rate == self.session@.sample_rate
        &&& self.outbox@.len() % self.resampler@.channels == 0
        &&& (!passes_through(self.resampler@) ==> self.outbox@.len() == 0)
        &&& self.session@.delivered == self.lead@ + self.given@ + self.outbox@
            + self.resampler@.pending
    }

    /// Nothing is reordered or dropped: what was handed out is always the
    /// beginning of what was taken from the decoder.
    pub proof fn lemma_given_is_prefix(self)
        requires
            self.wf(),
        ensures
            is_prefix(self@.given, self@.taken),
            self@.channels > 0,
    {
        self.resampler.lemma_wf();
        assert(self@.taken =~= self.given@ + self.outbox@ + self.resampler@.pending);
        assert(self@.taken.take(self.given@.len() as int) =~= self.given@);
    }

    /// What was taken and not yet handed out is what is held back.
    proof fn lemma_taken(self)
        requires
            self.wf(),
        ensures
            self@.taken == self.given@ + self.outbox@ + self.resampler@.pending,
    {
        assert(self@.taken =~= self.given@ + self.outbox@ + self.resampler@.pending);
    }

    /// Sets up the producer for an open session and a device that runs at
    /// `target_rate`. Batches hold `chunk_frames` frames, and a batch is only
    /// handed out while the queue has `batch_room` free frames, which must
    /// cover what the resampler can return for one batch.
    pub fn new(
        session: DecodeSession<R>,
        target_rate: u32,
        chunk_frames: usize,
        batch_room: usize,
    ) -> (r: Result<Self, SetupError>)
        requires
            session.wf(),
        ensures
            (target_rate > 0 && chunk_frames > 0 && chunk_frames * session@.channels
                <= usize::MAX) <==> r is Ok,
            target_rate == 0 <==> (r matches Err(e) && e == SetupError::InvalidSampleRate),
            r matches Err(e) ==> e == SetupError::InvalidSampleRate || e
                == SetupError::QueueTooLarge,
            r matches Ok(p) ==> p.wf() && p@ == (PumpView {
                channels: session@.channels,
                source_rate: session@.sample_rate,
                target_rate: target_rate as nat,
                chunk_frames: chunk_frames as nat,
                batch_room: batch_room as nat,
                taken: Seq::empty(),
                given: Seq::empty(),
                ended: session@.ended,
                skipped: session@.skipped,
            }),
    {
        proof {
            session.lemma_wf();
        }
        match Resampler::configure(
            session.sample_rate(),
            target_rate,
            session.channels(),
            chunk_frames,
        ) {
            Ok(resampler) => {
                let p = Pump {
                    session,
                    resampler,
                    outbox: Vec::new(),
                    batch_room,
                    lead: Ghost(session@.delivered),
                    given: Ghost(Seq::empty()),
                };
                proof {
                    vstd::arithmetic::div_mod::lemma_small_mod(0, p.resampler@.channels);
                    assert(p.session@.delivered =~= p.lead@ + p.given@ + p.outbox@
                        + p.resampler@.pending);
                    assert(p@.taken =~= Seq::<i16>::empty());
                }
                Ok(p)
            },
            Err(e) => Err(e),
        }
    }

    /// The decode session, for its counters. What the pump has taken is the
    /// end of what the session has handed out.
    pub fn session(&self) -> (s: &DecodeSession<R>)
        ensures
            self.wf() ==> {
                &&& s.wf()
                &&& s@.channels == self@.channels
                &&& s@.sample_rate == self@.source_rate
                &&& self@.taken.len() <= s@.delivered.len()
                &&& s@.delivered.skip(s@.delivered.len() - self@.taken.len()) == self@.taken
            },
            s@.ended == self@.ended,
            s@.skipped == self@.skipped,
    {
        proof {
            if self.wf() {
                self.lemma_taken();
                assert(self.session@.delivered.len() - self@.taken.len() == self.lead@.len());
            }
        }
        &self.session
    }

    /// The resampling front end, for its rates and for interleaving.
    pub fn resampler(&self) -> (r: &Resampler)
        ensures
            self.wf() ==> r.wf(),
            r@.channels == self@.channels,
            r@.source_rate == self@.source_rate,
            r@.target_rate == self@.target_rate,
            r@.chunk_frames == self@.chunk_frames,
    {
        &self.resampler
    }
}

impl<R: std::io::Read> Pump<R> {
    /// Says what to do next, given that the renderer's queue has
    /// `free_frames` frames of room.
    ///
    /// When both rates agree, decoded frames are handed out as they are, at
    /// most `free_frames` at a time. Otherwise they are handed out in planar
    /// batches of `chunk_frames` frames, only the last of which may be padded
    /// with zeros, and only while the queue has `batch_room` free frames.
    /// Work is handed out in stream order and nothing is handed out twice.
    /// The decoder is only called when nothing is left to hand out.
    pub fn next_work(&mut self, free_frames: usize) -> (w: Work)
        requires
            old(self).wf(),
        ensures
            final(self).wf(),
            same_setup(final(self)@, old(self)@),
            is_prefix(old(self)@.taken, final(self)@.taken),
            is_prefix(old(self)@.given, final(self)@.given),
            final(self)@.skipped >= old(self)@.skipped,
            match w {
                Work::Wait => {
                    &&& final(self)@ == old(self)@
                    &&& if old(self)@.source_rate == old(self)@.target_rate {
                        free_frames == 0
                    } else {
                        free_frames < old(self)@.batch_room
                    }
                },
                Work::Queue(frames) => {
                    &&& old(self)@.source_rate == old(self)@.target_rate
                    &&& frames@.len() > 0
                    &&& frames@.len() % old(self)@.channels == 0
                    &&& frames@.len() / old(self)@.channels <= free_frames
                    &&& final(self)@.given == old(self)@.given + frames@
                },
                Work::Resample(chunk) => {
                    let fresh = final(self)@.given.skip(old(self)@.given.len() as int);
                    let filled = fresh.len() / old(self)@.channels;
                    &&& old(self)@.source_rate != old(self)@.target_rate
                    &&& free_frames >= old(self)@.batch_room
                    &&& fresh.len() % old(self)@.channels == 0
                    &&& 0 < filled <= old(self)@.chunk_frames
                    &&& (filled < old(self)@.chunk_frames ==> final(self)@.ended)
                    &&& lanes(chunk@) == planar_of(
                        fresh,
                        old(self)@.channels,
                        filled,
                        old(self)@.chunk_frames,
                    )
                },
                Work::Finish => {
                    &&& final(self)@.ended
                    &&& final(self)@.given == final(self)@.taken
                    &&& final(self)@.given == old(self)@.given
                },
            },
    {
        proof {
            self.resampler.lemma_wf();
            self.session.lemma_wf();
        }
        if self.resampler.is_passthrough() {
            self.next_direct(free_frames)
        } else {
            self.next_batch(free_frames)
        }
    }

    /// `next_work` when both rates agree.
    fn next_direct(&mut self, free_frames: usize) -> (w: Work)
        requires
            old(self).wf(),
            passes_through(old(self).resampler@),
        ensures
            final(self).wf(),
            same_setup(final(self)@, old(self)@),
            is_prefix(old(self)@.taken, final(self)@.taken),
            is_prefix(old(self)@.given, final(self)@.given),
            final(self)@.skipped >= old(self)@.skipped,
            match w {
                Work::Wait => final(self)@ == old(self)@ && free_frames == 0,
                Work::Queue(frames) => {
                    &&& frames@.len() > 0
                    &&& frames@.len() % old(self)@.channels == 0
                    &&& frames@.len() / old(self)@.channels <= free_frames
                    &&& final(self)@.given == old(self)@.given + frames@
                },
                Work::Resample(_) => false,
                Work::Finish => {
                    &&& final(self)@.ended
                    &&& final(self)@.given == final(self)@.taken
                    &&& final(self)@.given == old(self)@.given
                },
            },
    {
        proof {
            self.resampler.lemma_wf();
            self.session.lemma_wf();
            self.lemma_taken();
            lemma_prefix(self@.taken, Seq::empty());
            lemma_prefix(self.given@, Seq::empty());
        }
        if free_frames == 0 {
            return Work::Wait;
        }
        let ch: usize = self.resampler.channels();
        if self.outbox.len() == 0 {
            match self.session.next_block() {
                Some(block) => {
                    let ready = self.resampler.push(block.as_slice());
                    proof {
                        lemma_pass_through_is_identity(block@, ch as nat);
                    }
                    self.outbox = ready;
                    proof {
                        assert(self.session@.delivered =~= self.lead@ + self.given@ + self.outbox@
                            + self.resampler@.pending);
                        self.lemma_taken();
                        lemma_prefix(old(self)@.taken, block@);
                        assert(self@.taken =~= old(self)@.taken + block@);
                    }
                },
                None => {
                    proof {
                        self.lemma_taken();
                        assert(self@.taken =~= self.given@);
                    }
                    return Work::Finish;
                },
            }
        }
        let len: usize = self.outbox.len();
        let have: usize = len / ch;
        let n: usize = if have <= free_frames {
            have
        } else {
            free_frames
        };
        proof {
            vstd::arithmetic::div_mod::lemma_fundamental_div_mod(len as int, ch as int);
            assert(have >= 1) by (nonlinear_arith)
                requires
                    len == ch * have,
                    len > 0,
                    ch > 0,
            ;
            lemma_frames_fit(n as int, have as int, len as int, ch as int);
        }
        let count: usize = n * ch;
        let ghost whole = self.outbox@;
        let ghost taken = self@.taken;
        let mut frames = self.outbox.split_off(count);
        std::mem::swap(&mut frames, &mut self.outbox);
        proof {
            assert(frames@ =~= whole.take(count as int));
            assert(self.outbox@ =~= whole.skip(count as int));
            assert(whole =~= frames@ + self.outbox@);
            let before = self.given@;
            self.given@ = self.given@ + frames@;
            assert(self.session@.delivered =~= self.lead@ + self.given@ + self.outbox@
                + self.resampler@.pending);
            assert(self@.taken == taken);
            lemma_prefix(before, frames@);
            lemma_fundamental_div_mod_converse(count as int, ch as int, n as int, 0);
            lemma_whole_frames_subtract(len as int, count as int, ch as int);
            assert(count > 0) by (nonlinear_arith)
                requires
                    count == n * ch,
                    n >= 1,
                    ch >= 1,
            ;
        }
        Work::Queue(frames)
    }

    /// `next_work` when the rates differ.
    fn next_batch(&mut self, free_frames: usize) -> (w: Work)
        requires
            old(self).wf(),
            !passes_through(old(self).resampler@),
        ensures
            final(self).wf(),
            same_setup(final(self)@, old(self)@),
            is_prefix(old(self)@.taken, final(self)@.taken),
            is_prefix(old(self)@.given, final(self)@.given),
            final(self)@.skipped >= old(self)@.skipped,
            match w {
                Work::Wait => final(self)@ == old(self)@ && free_frames < old(self)@.batch_room,
                Work::Queue(_) => false,
                Work::Resample(chunk) => {
                    let fresh = final(self)@.given.skip(old(self)@.given.len() as int);
                    let filled = fresh.len() / old(self)@.channels;
                    &&& free_frames >= old(self)@.batch_room
                    &&& fresh.len() % old(self)@.channels == 0
                    &&& 0 < filled <= old(self)@.chunk_frames
                    &&& (filled < old(self)@.chunk_frames ==> final(self)@.ended)
                    &&& lanes(chunk@) == planar_of(
                        fresh,
                        old(self)@.channels,
                        filled,
                        old(self)@.chunk_frames,
                    )
                },
                Work::Finish => {
                    &&& final(self)@.ended
                    &&& final(self)@.given == final(self)@.taken
                    &&& final(self)@.given == old(self)@.given
                },
            },
    {
        proof {
            self.resampler.lemma_wf();
            self.session.lemma_wf();
            self.lemma_taken();
            lemma_prefix(self@.taken, Seq::empty());
            lemma_prefix(self.given@, Seq::empty());
        }
        if free_frames < self.batch_room {
            return Work::Wait;
        }
        let ch: usize = self.resampler.channels();
        let need: usize = self.resampler.chunk_frames() * ch;
        assert(need > 0) by (nonlinear_arith)
            requires
                need == self.resampler@.chunk_frames * ch,
                self.resampler@.chunk_frames > 0,
                ch > 0,
        ;
        loop
            invariant
                self.wf(),
                !passes_through(self.resampler@),
                same_setup(self@, old(self)@),
                self.given@ == old(self).given@,
                self.lead@ == old(self).lead@,
                is_prefix(old(self)@.taken, self@.taken),
                self@.skipped >= old(self)@.skipped,
                free_frames >= self.batch_room,
                ch == self.resampler@.channels,
                ch > 0,
                need == self.resampler@.chunk_frames * ch,
                need > 0,
            decreases
                    (if self.resampler@.pending.len() < need {
                        need - self.resampler@.pending.len()
                    } else {
                        0
                    }),
        {
            proof {
                self.resampler.lemma_wf();
                self.session.lemma_wf();
            }
            let ghost pending = self.resampler@.pending;
            let ghost taken = self@.taken;
            match self.resampler.take_chunk() {
                Some(chunk) => {
                    proof {
                        let fresh = pending.take(need as int);
                        assert(pending =~= fresh + pending.skip(need as int));
                        self.given@ = self.given@ + fresh;
                        assert(self.session@.delivered =~= self.lead@ + self.given@
                            + self.outbox@ + self.resampler@.pending);
                        assert(self@.taken == taken);
                        lemma_prefix(old(self).given@, fresh);
                        lemma_fundamental_div_mod_converse(
                            need as int,
                            ch as int,
                            self.resampler@.chunk_frames as int,
                            0,
                        );
                        lemma_planar_of_prefix(
                            pending,
                            ch as nat,
                            self.resampler@.chunk_frames,
                            self.resampler@.chunk_frames,
                        );
                    }
                    return Work::Resample(chunk);
                },
                None => {},
            }
            match self.session.next_block() {
                Some(block) => {
                    let ready = self.resampler.push(block.as_slice());
                    proof {
                        lemma_pass_through_is_identity(block@, ch as nat);
                        assert(self.session@.delivered =~= self.lead@ + self.given@
                            + self.outbox@ + self.resampler@.pending);
                        self.lemma_taken();
                        lemma_prefix(taken, block@);
                        assert(self@.taken =~= taken + block@);
                        lemma_prefix_chain(old(self)@.taken, taken, self@.taken);
                    }
                },
                None => {
                    let ghost left = self.resampler@.pending;
                    match self.resampler.flush() {
                        Some(chunk) => {
                            proof {
                                let filled = left.len() / (ch as nat);
                                vstd::arithmetic::div_mod::lemma_fundamental_div_mod(
                                    left.len() as int,
                                    ch as int,
                                );
                                assert(filled * ch == left.len()) by (nonlinear_arith)
                                    requires
                                        left.len() == ch * ((left.len() as int) / (ch as int)),
                                        filled == (left.len() as int) / (ch as int),
                                ;
                                assert(filled < self.resampler@.chunk_frames) by (nonlinear_arith)
                                    requires
                                        filled * ch == left.len(),
                                        left.len() < need,
                                        need == self.resampler@.chunk_frames * ch,
                                        ch > 0,
                                ;
                                assert(filled > 0) by (nonlinear_arith)
                                    requires
                                        filled * ch == left.len(),
                                        left.len() > 0,
                                        ch > 0,
                                ;
                                assert(left.skip(left.len() as int) =~= Seq::<i16>::empty());
                                self.given@ = self.given@ + left;
                                assert(self.session@.delivered =~= self.lead@ + self.given@
                                    + self.outbox@ + self.resampler@.pending);
                                assert(self@.taken == taken);
                                lemma_prefix(old(self).given@, left);
                            }
                            return Work::Resample(chunk);
                        },
                        None => {
                            proof {
                                self.lemma_taken();
                                assert(self@.taken =~= self.given@);
                                lemma_prefix(self.given@, Seq::empty());
                            }
                            return Work::Finish;
                        },
                    }
                },
            }
        }
    }
}

/// The beginning of a beginning is a beginning.
pub proof fn lemma_prefix_chain(a: Seq<i16>, b: Seq<i16>, c: Seq<i16>)
    requires
        is_prefix(a, b),
        is_prefix(b, c),
    ensures
        is_prefix(a, c),
{
    assert(c.take(a.len() as int) =~= b.take(a.len() as int));
}

/// A planar batch depends only on the samples of its filled frames.
pub proof fn lemma_planar_of_prefix(samples: Seq<i16>, channels: nat, filled: nat, frames: nat)
    requires
        channels > 0,
        filled * channels <= samples.len(),
    ensures
        planar_of(samples, channels, filled, frames) == planar_of(
            samples.take((filled * channels) as int),
            channels,
            filled,
            frames,
        ),
{
    let a = planar_of(samples, channels, filled, frames);
    let b = planar_of(samples.take((filled * channels) as int), channels, filled, frames);
    assert forall|c: int| 0 <= c < channels implies a[c] == b[c] by {
        assert forall|f: int| 0 <= f < frames implies a[c][f] == b[c][f] by {
            if f < filled {
                crate::frames::lemma_sample_in_frame(f, filled as int, channels as int);
            }
        }
        assert(a[c] =~= b[c]);
    }
    assert(a =~= b);
}

} // verus!
