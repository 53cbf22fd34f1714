//! The decode adapter: it turns what the MP3 decoder yields into a forward-only
//! stream of PCM frames with one fixed channel count and sample rate, passing
//! over blocks that do not fit and counting them.

use crate::error::SetupError;
use vstd::prelude::*;

verus! {

/// `minimp3::Decoder`, the streaming MP3 decoder over a reader `R`. It is
/// carried through as an opaque handle; nothing is known of its state.
#[verifier::external_type_specification]
#[verifier::external_body]
#[verifier::reject_recursive_types(R)]
pub struct ExDecoder<R>(minimp3::Decoder<R>);

/// One decoded block as the decoder reports it: interleaved samples with the
/// sample rate and channel count the decoder read from the block's header.
#[derive(Clone, Debug, PartialEq, Eq)]
pub struct RawBlock {
    pub data: Vec<i16>,
    pub sample_rate: i32,
    pub channels: usize,
}

/// What one call of the decoder came back with.
#[derive(Clone, Debug, PartialEq, Eq)]
pub enum RawOutcome {
    /// A block was decoded.
    Block(RawBlock),
    /// The decoder passed over bytes that are no block.
    Skipped,
    /// The decoder had too few bytes for a block.
    Starved,
    /// The source is exhausted.
    End,
    /// Reading the source failed.
    Failed,
}

/// What the session made of one decoder outcome.
#[derive(Clone, Debug, PartialEq, Eq)]
pub enum Received {
    /// The block fits the session; these are its interleaved samples.
    Block(Vec<i16>),
    /// The outcome carried nothing playable and was counted as skipped.
    Dropped,
    /// The stream is over.
    End,
}

/// One sample per channel, all of the same instant.
#[derive(Clone, Debug, PartialEq, Eq)]
pub struct PcmFrame {
    pub samples: Vec<i16>,
}

/// A first block can open a session: it names a positive rate and channel
/// count and holds at least one whole frame and no partial one.
pub open spec fn usable_header(b: RawBlock) -> bool {
    &&& b.channels > 0
    &&& b.sample_rate > 0
    &&& b.data@.len() > 0
    &&& b.data@.len() % (b.channels as nat) == 0
}

/// A block fits a session with the given channel count and rate: it agrees
/// with both and holds at least one whole frame and no partial one.
pub open spec fn well_formed(b: RawBlock, channels: nat, sample_rate: nat) -> bool {
    &&& b.channels == channels
    &&& b.sample_rate == sample_rate
    &&& b.data@.len() > 0
    &&& b.data@.len() % channels == 0
}

/// An outcome delivers audio to a session with the given shape.
pub open spec fn delivers(o: RawOutcome, channels: nat, sample_rate: nat) -> bool {
    o matches RawOutcome::Block(b) && well_formed(b, channels, sample_rate)
}

/// An outcome is passed over and counted: a block that does not fit, or a
/// report that the decoder found no block.
pub open spec fn is_skip(o: RawOutcome, channels: nat, sample_rate: nat) -> bool {
    match o {
        RawOutcome::Block(b) => !well_formed(b, channels, sample_rate),
        RawOutcome::Skipped => true,
        RawOutcome::Starved => true,
        RawOutcome::End => false,
        RawOutcome::Failed => false,
    }
}

/// An outcome ends the stream.
pub open spec fn is_end(o: RawOutcome) -> bool {
    o is End || o is Failed
}

/// The skip counter after one more skip; it stops at the largest value.
pub open spec fn bump(skipped: nat) -> nat {
    if skipped < u64::MAX {
        skipped + 1
    } else {
        skipped
    }
}

/// The samples of the payload of a delivering outcome.
pub open spec fn payload(o: RawOutcome) -> Seq<i16> {
    match o {
        RawOutcome::Block(b) => b.data@,
        _ => Seq::empty(),
    }
}

/// A decode session over one compressed source.
///
/// The channel count and sample rate are those of the first block and never
/// change. Samples that were decoded but not yet handed out are buffered.
#[verifier::reject_recursive_types(R)]
pub struct DecodeSession<R> {
    decoder: minimp3::Decoder<R>,
    channels: usize,
    sample_rate: u32,
    block: Vec<i16>,
    cursor: usize,
    skipped: u64,
    ended: bool,
    failed: bool,
    delivered: Ghost<Seq<i16>>,
}

/// What a session looks like from outside.
pub struct SessionView {
    /// Channels per frame.
    pub channels: nat,
    /// Frames per second of the source.
    pub sample_rate: nat,
    /// Decoded samples not yet handed out, interleaved.
    pub buffered: Seq<i16>,
    /// Outcomes passed over so far.
    pub skipped: nat,
    /// Whether the decoder has reported the end of the stream.
    pub ended: bool,
    /// Whether the stream ended because reading the source failed.
    pub failed: bool,
    /// Every sample that `next_frame` and `next_block` have handed out so
    /// far, in order.
    pub delivered: Seq<i16>,
}

impl<R> View for DecodeSession<R> {
    type V = SessionView;

    closed spec fn view(&self) -> SessionView {
        SessionView {
            channels: self.channels as nat,
            sample_rate: self.sample_rate as nat,
            buffered: self.block@.skip(self.cursor as int),
            skipped: self.skipped as nat,
            ended: self.ended,
            failed: self.failed,
            delivered: self.delivered@,
        }
    }
}

/// The session after it has taken in one decoder outcome: a block that fits
/// changes nothing, the end of the source or a read failure ends the stream,
/// and anything else is counted as skipped.
pub open spec fn step(s: SessionView, o: RawOutcome) -> SessionView {
    if delivers(o, s.channels, s.sample_rate) {
        s
    } else if is_end(o) {
        SessionView { ended: true, failed: s.failed || o is Failed, ..s }
    } else {
        SessionView { skipped: bump(s.skipped), ..s }
    }
}

/// The session after it has taken in a run of outcomes, one after another.
pub open spec fn run(s: SessionView, outcomes: Seq<RawOutcome>) -> SessionView
    decreases outcomes.len(),
{
    if outcomes.len() == 0 {
        s
    } else {
        step(run(s, outcomes.drop_last()), outcomes.last())
    }
}

/// The blocks a session hands on while it takes in a run of outcomes, in the
/// order in which they come.
pub open spec fn handed_on(s: SessionView, outcomes: Seq<RawOutcome>) -> Seq<Seq<i16>>
    decreases outcomes.len(),
{
    if outcomes.len() == 0 {
        Seq::empty()
    } else {
        let earlier = handed_on(s, outcomes.drop_last());
        let at = run(s, outcomes.drop_last());
        if delivers(outcomes.last(), at.channels, at.sample_rate) {
            earlier.push(payload(outcomes.last()))
        } else {
            earlier
        }
    }
}

impl<R> DecodeSession<R> {
    /// The shape is positive and the buffer holds whole frames.
    pub closed spec fn wf(self) -> bool {
        &&& self.channels > 0
        &&& self.sample_rate > 0
        &&& self.sample_rate <= i32::MAX
        &&& self.cursor <= self.block@.len()
        &&& self.block@.len() % (self.channels as nat) == 0
        &&& self.cursor % self.channels == 0
    }

    /// What well-formedness says about the view: the shape is positive and
    /// whole frames are buffered.
    pub proof fn lemma_wf(self)
        requires
            self.wf(),
        ensures
            self@.channels > 0,
            self@.sample_rate > 0,
            self@.buffered.len() % self@.channels == 0,
    {
        crate::frames::lemma_whole_frames_subtract(
            self.block@.len() as int,
            self.cursor as int,
            self.channels as int,
        );
    }
}

/// Calls `minimp3::Decoder::next_frame` once and reports what it returned, one
/// outcome for a decoded frame and one for each error the decoder can give.
/// Nothing is claimed about the outcome: it depends on the bytes of the source.
#[verifier::external_body]
fn pull<R: std::io::Read>(decoder: &mut minimp3::Decoder<R>) -> (outcome: RawOutcome) {
    match decoder.next_frame() {
        Ok(frame) => RawOutcome::Block(
            RawBlock { data: frame.data, sample_rate: frame.sample_rate, channels: frame.channels },
        ),
        Err(minimp3::Error::Io(_)) => RawOutcome::Failed,
        Err(minimp3::Error::InsufficientData) => RawOutcome::Starved,
        Err(minimp3::Error::SkippedData) => RawOutcome::Skipped,
        Err(minimp3::Error::Eof) => RawOutcome::End,
    }
}

impl<R> DecodeSession<R> {
    /// Starts a session from the decoder and the first outcome it gave.
    ///
    /// A usable first block opens the session and is buffered whole. A block
    /// without a positive rate and channel count, or without whole frames, is
    /// a bad header. Anything else means the source could not be read.
    pub fn start(decoder: minimp3::Decoder<R>, first: RawOutcome) -> (r: Result<
        Self,
        SetupError,
    >)
        ensures
            match first {
                RawOutcome::Block(b) => if usable_header(b) {
                    &&& r matches Ok(s)
                    &&& s.wf()
                    &&& s@ == (SessionView {
                        channels: b.channels as nat,
                        sample_rate: b.sample_rate as nat,
                        buffered: b.data@,
                        skipped: 0,
                        ended: false,
                        failed: false,
                        delivered: Seq::empty(),
                    })
                } else {
                    r matches Err(e) && e == SetupError::BadHeader
                },
                _ => r matches Err(e) && e == SetupError::UnreadableSource,
            },
    {
        match first {
            RawOutcome::Block(b) => {
                if b.channels > 0 && b.sample_rate > 0 && b.data.len() > 0 && b.data.len()
                    % b.channels == 0 {
                    let s = DecodeSession {
                        decoder,
                        channels: b.channels,
                        sample_rate: b.sample_rate as u32,
                        block: b.data,
                        cursor: 0,
                        skipped: 0,
                        ended: false,
                        failed: false,
                        delivered: Ghost(Seq::empty()),
                    };
                    assert(s.block@.skip(0) =~= s.block@);
                    assert(0int % (s.channels as int) == 0) by {
                        vstd::arithmetic::div_mod::lemma_small_mod(0, s.channels as nat);
                    }
                    Ok(s)
                } else {
                    Err(SetupError::BadHeader)
                }
            },
            _ => Err(SetupError::UnreadableSource),
        }
    }

    /// Channels per frame.
    pub fn channels(&self) -> (n: usize)
        ensures
            n == self@.channels,
    {
        self.channels
    }

    /// Frames per second of the source.
    pub fn sample_rate(&self) -> (n: u32)
        ensures
            n == self@.sample_rate,
    {
        self.sample_rate
    }

    /// Outcomes passed over so far.
    pub fn skipped(&self) -> (n: u64)
        ensures
            n == self@.skipped,
    {
        self.skipped
    }

    /// Whether the decoder has reported the end of the stream.
    pub fn is_ended(&self) -> (b: bool)
        ensures
            b == self@.ended,
    {
        self.ended
    }

    /// Whether the stream ended because reading the source failed.
    pub fn has_failed(&self) -> (b: bool)
        ensures
            b == self@.failed,
    {
        self.failed
    }

    /// Takes in one decoder outcome.
    ///
    /// A block that fits the session is handed on untouched. A block that
    /// does not fit, and a report that the decoder found no block, is dropped
    /// and counted. The end of the source, and a read failure, end the stream.
    /// The buffer and the session's shape never change here.
    pub fn receive(&mut self, outcome: RawOutcome) -> (r: Received)
        requires
            old(self).wf(),
        ensures
            final(self).wf(),
            final(self)@ == step(old(self)@, outcome),
            match r {
                Received::Block(data) => delivers(
                    outcome,
                    old(self)@.channels,
                    old(self)@.sample_rate,
                ) && data@ == payload(outcome),
                Received::Dropped => is_skip(
                    outcome,
                    old(self)@.channels,
                    old(self)@.sample_rate,
                ),
                Received::End => is_end(outcome),
            },
    {
        match outcome {
            RawOutcome::Block(b) => {
                if b.channels == self.channels && b.sample_rate > 0 && b.sample_rate as u32
                    == self.sample_rate && b.data.len() > 0 && b.data.len() % self.channels == 0 {
                    Received::Block(b.data)
                } else {
                    self.count_skip();
                    Received::Dropped
                }
            },
            RawOutcome::Skipped => {
                self.count_skip();
                Received::Dropped
            },
            RawOutcome::Starved => {
                self.count_skip();
                Received::Dropped
            },
            RawOutcome::End => {
                self.ended = true;
                Received::End
            },
            RawOutcome::Failed => {
                self.ended = true;
                self.failed = true;
                Received::End
            },
        }
    }

    /// Counts one skipped outcome.
    fn count_skip(&mut self)
        requires
            old(self).wf(),
        ensures
            final(self).wf(),
            final(self)@ == (SessionView { skipped: bump(old(self)@.skipped), ..old(self)@ }),
    {
        if self.skipped < u64::MAX {
            self.skipped += 1;
        }
    }

}

impl<R: std::io::Read> DecodeSession<R> {
    /// Opens a session: decodes the first block of the source and fixes the
    /// session's channel count and sample rate from it.
    ///
    /// What the decoder finds depends on the source; `start` says what is made
    /// of each possible first outcome.
    pub fn open(decoder: minimp3::Decoder<R>) -> (r: Result<Self, SetupError>)
        ensures
            r matches Ok(s) ==> s.wf() && s@.buffered.len() > 0 && s@.skipped == 0 && !s@.ended
                && !s@.failed && s@.delivered.len() == 0,
            r matches Err(e) ==> e == SetupError::BadHeader || e == SetupError::UnreadableSource,
    {
        let mut decoder = decoder;
        let first = pull(&mut decoder);
        Self::start(decoder, first)
    }

    /// Decodes until a block that fits is buffered or the stream is over.
    ///
    /// Returns whether samples are buffered afterwards. The stream also counts
    /// as over once the skip counter has reached its largest value.
    fn refill(&mut self) -> (ok: bool)
        requires
            old(self).wf(),
            old(self)@.buffered.len() == 0,
        ensures
            final(self).wf(),
            final(self)@.channels == old(self)@.channels,
            final(self)@.sample_rate == old(self)@.sample_rate,
            final(self)@.skipped >= old(self)@.skipped,
            final(self)@.delivered == old(self)@.delivered,
            old(self)@.ended ==> !ok && final(self)@ == old(self)@,
            old(self)@.failed ==> final(self)@.failed,
            ok ==> final(self)@.buffered.len() > 0 && !final(self)@.ended && final(self)@.failed
                == old(self)@.failed,
            !ok ==> final(self)@.buffered.len() == 0 && final(self)@.ended,
    {
        loop
            invariant
                self.wf(),
                self@.channels == old(self)@.channels,
                self@.sample_rate == old(self)@.sample_rate,
                self@.buffered.len() == 0,
                self@.skipped >= old(self)@.skipped,
                self@.delivered == old(self)@.delivered,
                self@.ended == old(self)@.ended,
                old(self)@.ended ==> self@ == old(self)@,
                self@.failed == old(self)@.failed,
            decreases u64::MAX - self.skipped,
        {
            if self.ended {
                return false;
            }
            if self.skipped == u64::MAX {
                self.ended = true;
                return false;
            }
            let outcome = pull(&mut self.decoder);
            match self.receive(outcome) {
                Received::Block(data) => {
                    self.block = data;
                    self.cursor = 0;
                    proof {
                        assert(self.block@.skip(0) =~= self.block@);
                        vstd::arithmetic::div_mod::lemma_small_mod(0, self.channels as nat);
                    }
                    return true;
                },
                Received::Dropped => {},
                Received::End => {
                    return false;
                },
            }
        }
    }

    /// The next PCM frame of the stream, or `None` once the stream is over.
    ///
    /// Buffered frames come first, in order. When the buffer is empty the
    /// decoder is called until it yields a block that fits; what it skips on
    /// the way is counted and never handed out. A stream whose skip counter
    /// has reached its largest value is over.
    pub fn next_frame(&mut self) -> (r: Option<PcmFrame>)
        requires
            old(self).wf(),
        ensures
            final(self).wf(),
            final(self)@.channels == old(self)@.channels,
            final(self)@.sample_rate == old(self)@.sample_rate,
            final(self)@.skipped >= old(self)@.skipped,
            r matches Some(frame) ==> {
                &&& frame.samples@.len() == old(self)@.channels
                &&& final(self)@.ended == old(self)@.ended
                &&& final(self)@.failed == old(self)@.failed
                &&& final(self)@.delivered == old(self)@.delivered + frame.samples@
            },
            old(self)@.buffered.len() > 0 ==> {
                &&& r matches Some(frame)
                &&& frame.samples@ == old(self)@.buffered.take(old(self)@.channels as int)
                &&& final(self)@ == (SessionView {
                    buffered: old(self)@.buffered.skip(old(self)@.channels as int),
                    delivered: old(self)@.delivered + frame.samples@,
                    ..old(self)@
                })
            },
            old(self)@.buffered.len() == 0 && old(self)@.ended ==> r is None && final(self)@
                == old(self)@,
            r is None ==> final(self)@.ended && final(self)@.buffered.len() == 0
                && final(self)@.delivered == old(self)@.delivered,
    {
        if self.cursor >= self.block.len() {
            if !self.refill() {
                return None;
            }
        }
        let ch: usize = self.channels;
        let end: usize = self.block.len();
        let ghost before = self@.buffered;
        proof {
            crate::frames::lemma_frame_available(end as int, self.cursor as int, ch as int);
        }
        let mut samples: Vec<i16> = Vec::new();
        let mut k: usize = 0;
        while k < ch
            invariant
                k <= ch,
                ch == self.channels,
                end == self.block@.len(),
                self.cursor + ch <= end,
                samples@ == self.block@.subrange(self.cursor as int, self.cursor + k),
            decreases ch - k,
        {
            samples.push(self.block[self.cursor + k]);
            k += 1;
            assert(samples@ =~= self.block@.subrange(self.cursor as int, self.cursor + k));
        }
        proof {
            assert(samples@ =~= before.take(ch as int));
            assert(self.block@.skip(self.cursor + ch) =~= before.skip(ch as int));
        }
        self.cursor = self.cursor + ch;
        proof {
            self.delivered@ = self.delivered@ + samples@;
        }
        Some(PcmFrame { samples })
    }

    /// The rest of the buffered block, or the next block of the stream if
    /// nothing is buffered; `None` once the stream is over. Blocks that do not
    /// fit are skipped and counted as in `next_frame`.
    pub fn next_block(&mut self) -> (r: Option<Vec<i16>>)
        requires
            old(self).wf(),
        ensures
            final(self).wf(),
            final(self)@.channels == old(self)@.channels,
            final(self)@.sample_rate == old(self)@.sample_rate,
            final(self)@.skipped >= old(self)@.skipped,
            final(self)@.buffered.len() == 0,
            r matches Some(data) ==> {
                &&& data@.len() > 0
                &&& data@.len() % old(self)@.channels == 0
                &&& final(self)@.ended == old(self)@.ended
                &&& final(self)@.failed == old(self)@.failed
                &&& final(self)@.delivered == old(self)@.delivered + data@
            },
            old(self)@.buffered.len() > 0 ==> {
                &&& r matches Some(data)
                &&& data@ == old(self)@.buffered
                &&& final(self)@ == (SessionView {
                    buffered: Seq::empty(),
                    delivered: old(self)@.delivered + data@,
                    ..old(self)@
                })
            },
            old(self)@.buffered.len() == 0 && old(self)@.ended ==> r is None && final(self)@
                == old(self)@,
            r is None ==> final(self)@.ended && final(self)@.delivered == old(self)@.delivered,
    {
        if self.cursor >= self.block.len() {
            if !self.refill() {
                return None;
            }
        }
        let end: usize = self.block.len();
        let ghost before = self@.buffered;
        let mut data: Vec<i16> = Vec::new();
        let mut k: usize = self.cursor;
        while k < end
            invariant
                self.cursor <= k <= end,
                end == self.block@.len(),
                data@ == self.block@.subrange(self.cursor as int, k as int),
            decreases end - k,
        {
            data.push(self.block[k]);
            k += 1;
            assert(data@ =~= self.block@.subrange(self.cursor as int, k as int));
        }
        proof {
            assert(data@ =~= before);
            crate::frames::lemma_whole_frames_subtract(
                end as int,
                self.cursor as int,
                self.channels as int,
            );
            vstd::arithmetic::div_mod::lemma_small_mod(0, self.channels as nat);
        }
        self.cursor = end;
        proof {
            assert(self.block@.skip(end as int) =~= Seq::<i16>::empty());
            self.delivered@ = self.delivered@ + data@;
        }
        Some(data)
    }
}

/// Taking in outcomes never changes a session's channel count or sample rate.
pub proof fn lemma_shape_is_fixed(s: SessionView, outcomes: Seq<RawOutcome>)
    ensures
        run(s, outcomes).channels == s.channels,
        run(s, outcomes).sample_rate == s.sample_rate,
        run(s, outcomes).buffered == s.buffered,
        run(s, outcomes).delivered == s.delivered,
    decreases outcomes.len(),
{
    if outcomes.len() > 0 {
        lemma_shape_is_fixed(s, outcomes.drop_last());
    }
}

/// Skipped blocks are counted and never played.
///
/// Let a session take in a run of decoder outcomes none of which ends the
/// stream. Then the blocks it hands on are exactly the outcomes that fit the
/// session, in their order; every outcome is either handed on or skipped; and,
/// unless the counter reaches its largest value, the skip counter advances by
/// exactly the number of outcomes that do not fit.
pub proof fn lemma_skips_are_counted(s: SessionView, outcomes: Seq<RawOutcome>)
    requires
        forall|i: int| 0 <= i < outcomes.len() ==> !is_end(#[trigger] outcomes[i]),
    ensures
        handed_on(s, outcomes) == outcomes.filter(
            |o: RawOutcome| delivers(o, s.channels, s.sample_rate),
        ).map_values(|o: RawOutcome| payload(o)),
        outcomes.len() == handed_on(s, outcomes).len() + outcomes.filter(
            |o: RawOutcome| is_skip(o, s.channels, s.sample_rate),
        ).len(),
        s.skipped + outcomes.filter(|o: RawOutcome| is_skip(o, s.channels, s.sample_rate)).len()
            <= u64::MAX ==> run(s, outcomes).skipped == s.skipped + outcomes.filter(
            |o: RawOutcome| is_skip(o, s.channels, s.sample_rate),
        ).len(),
        run(s, outcomes).ended == s.ended,
        run(s, outcomes).failed == s.failed,
    decreases outcomes.len(),
{
    let fits = |o: RawOutcome| delivers(o, s.channels, s.sample_rate);
    let skips = |o: RawOutcome| is_skip(o, s.channels, s.sample_rate);
    let data = |o: RawOutcome| payload(o);
    if outcomes.len() == 0 {
        reveal(Seq::filter);
        assert(outcomes.filter(fits).map_values(data) =~= Seq::<Seq<i16>>::empty());
    } else {
        let earlier = outcomes.drop_last();
        let last = outcomes.last();
        lemma_skips_are_counted(s, earlier);
        lemma_shape_is_fixed(s, earlier);
        assert(outcomes =~= earlier.push(last));
        earlier.lemma_filter_push(last, fits);
        earlier.lemma_filter_push(last, skips);
        assert(!is_end(outcomes[outcomes.len() - 1]));
        if fits(last) {
            assert(outcomes.filter(fits).map_values(data) =~= earlier.filter(fits).map_values(
                data,
            ).push(payload(last)));
        }
    }
}

} // verus!
