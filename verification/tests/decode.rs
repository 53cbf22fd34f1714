use minimp3::Decoder;
use player_core::decode::DecodeSession;
use player_core::decode::PcmFrame;
use player_core::decode::RawBlock;
use player_core::decode::RawOutcome;
use player_core::decode::Received;
use player_core::error::SetupError;
use std::io::Cursor;

fn empty_decoder() -> Decoder<Cursor<Vec<u8>>> {
    Decoder::new(Cursor::new(Vec::new()))
}

fn block(data: Vec<i16>, sample_rate: i32, channels: usize) -> RawOutcome {
    RawOutcome::Block(RawBlock { data, sample_rate, channels })
}

fn stereo_session(first: Vec<i16>) -> DecodeSession<Cursor<Vec<u8>>> {
    DecodeSession::start(empty_decoder(), block(first, 44100, 2)).unwrap()
}

/// One MPEG-1 layer III frame at 128 kbit/s and 44.1 kHz whose payload is all
/// zero bits, so that it decodes to 1152 frames of digital silence.
fn silent_mp3_frame(mono: bool) -> Vec<u8> {
    let mut frame = vec![0u8; 417];
    frame[0] = 0xff;
    frame[1] = 0xfb;
    frame[2] = 0x90;
    frame[3] = if mono { 0xc0 } else { 0x00 };
    frame
}

fn mp3_stream(layout: &[bool]) -> Decoder<Cursor<Vec<u8>>> {
    let mut bytes = Vec::new();
    for mono in layout {
        bytes.extend(silent_mp3_frame(*mono));
    }
    Decoder::new(Cursor::new(bytes))
}

#[test]
fn start_takes_shape_from_the_first_block() {
    let session = stereo_session(vec![1, 2, 3, 4]);
    assert_eq!(session.channels(), 2);
    assert_eq!(session.sample_rate(), 44100);
    assert_eq!(session.skipped(), 0);
    assert!(!session.is_ended());
    assert!(!session.has_failed());
}

#[test]
fn start_rejects_a_first_block_without_shape() {
    let bad = [
        block(vec![1, 2], 44100, 0),
        block(vec![1, 2], 0, 2),
        block(vec![1, 2], -44100, 2),
        block(vec![], 44100, 2),
        block(vec![1, 2, 3], 44100, 2),
    ];
    for first in bad {
        let r = DecodeSession::start(empty_decoder(), first);
        assert_eq!(r.err(), Some(SetupError::BadHeader));
    }
}

#[test]
fn start_without_a_block_is_an_unreadable_source() {
    let none = [RawOutcome::End, RawOutcome::Failed, RawOutcome::Skipped, RawOutcome::Starved];
    for first in none {
        let r = DecodeSession::start(empty_decoder(), first);
        assert_eq!(r.err(), Some(SetupError::UnreadableSource));
    }
}

#[test]
fn open_on_an_empty_source_fails() {
    let r = DecodeSession::open(empty_decoder());
    assert_eq!(r.err(), Some(SetupError::UnreadableSource));
}

#[test]
fn open_on_noise_fails() {
    let noise: Vec<u8> = (0..4000u32).map(|i| (i * 7 % 251) as u8 & 0x7f).collect();
    let r = DecodeSession::open(Decoder::new(Cursor::new(noise)));
    assert_eq!(r.err(), Some(SetupError::UnreadableSource));
}

#[test]
fn receive_hands_on_a_block_that_fits() {
    let mut session = stereo_session(vec![1, 2]);
    let r = session.receive(block(vec![5, 6, 7, 8], 44100, 2));
    assert_eq!(r, Received::Block(vec![5, 6, 7, 8]));
    assert_eq!(session.skipped(), 0);
    assert!(!session.is_ended());
}

#[test]
fn receive_drops_and_counts_what_does_not_fit() {
    let mut session = stereo_session(vec![1, 2]);
    assert_eq!(session.receive(block(vec![5, 6], 44100, 1)), Received::Dropped);
    assert_eq!(session.receive(block(vec![5, 6], 48000, 2)), Received::Dropped);
    assert_eq!(session.receive(block(vec![5, 6, 7], 44100, 2)), Received::Dropped);
    assert_eq!(session.receive(block(vec![], 44100, 2)), Received::Dropped);
    assert_eq!(session.receive(RawOutcome::Skipped), Received::Dropped);
    assert_eq!(session.receive(RawOutcome::Starved), Received::Dropped);
    assert_eq!(session.skipped(), 6);
    assert!(!session.is_ended());
    assert_eq!(session.channels(), 2);
    assert_eq!(session.sample_rate(), 44100);
}

#[test]
fn receive_ends_the_stream_at_the_end_of_the_source() {
    let mut session = stereo_session(vec![1, 2]);
    assert_eq!(session.receive(RawOutcome::End), Received::End);
    assert!(session.is_ended());
    assert!(!session.has_failed());
    assert_eq!(session.skipped(), 0);
}

#[test]
fn receive_ends_the_stream_on_a_read_failure() {
    let mut session = stereo_session(vec![1, 2]);
    assert_eq!(session.receive(RawOutcome::Failed), Received::End);
    assert!(session.is_ended());
    assert!(session.has_failed());
}

#[test]
fn corrupt_blocks_are_skipped_and_counted() {
    let mut session = stereo_session(vec![0, 0]);
    let outcomes = vec![
        block(vec![1, 2], 44100, 2),
        block(vec![9, 9, 9], 44100, 2),
        block(vec![3, 4, 5, 6], 44100, 2),
        RawOutcome::Skipped,
        block(vec![9], 44100, 1),
        block(vec![7, 8], 44100, 2),
    ];
    let calls = outcomes.len();
    let mut played: Vec<i16> = Vec::new();
    let mut delivered = 0;
    for outcome in outcomes {
        if let Received::Block(data) = session.receive(outcome) {
            played.extend(data);
            delivered += 1;
        }
    }
    assert_eq!(played, vec![1, 2, 3, 4, 5, 6, 7, 8]);
    assert_eq!(session.skipped(), 3);
    assert_eq!(delivered + session.skipped() as usize, calls);
}

#[test]
fn next_frame_serves_the_buffer_frame_by_frame() {
    let mut session = stereo_session(vec![1, 2, 3, 4, 5, 6]);
    assert_eq!(session.next_frame(), Some(PcmFrame { samples: vec![1, 2] }));
    assert_eq!(session.next_frame(), Some(PcmFrame { samples: vec![3, 4] }));
    assert_eq!(session.next_frame(), Some(PcmFrame { samples: vec![5, 6] }));
    assert_eq!(session.next_frame(), None);
    assert!(session.is_ended());
    assert_eq!(session.next_frame(), None);
}

#[test]
fn next_block_hands_out_what_is_left_of_the_buffer() {
    let mut session = stereo_session(vec![1, 2, 3, 4, 5, 6]);
    assert_eq!(session.next_frame(), Some(PcmFrame { samples: vec![1, 2] }));
    assert_eq!(session.next_block(), Some(vec![3, 4, 5, 6]));
    assert_eq!(session.next_block(), None);
    assert!(session.is_ended());
    assert!(!session.has_failed());
    assert_eq!(session.skipped(), 0);
}

#[test]
fn decodes_a_silent_stereo_stream() {
    let mut session = DecodeSession::open(mp3_stream(&[false; 5])).unwrap();
    assert_eq!(session.channels(), 2);
    assert_eq!(session.sample_rate(), 44100);
    let mut blocks = 0;
    let mut samples = 0;
    while let Some(data) = session.next_block() {
        assert_eq!(data.len() % 2, 0);
        assert!(data.iter().all(|s| *s == 0));
        samples += data.len();
        blocks += 1;
    }
    assert!(blocks >= 1);
    assert_eq!(samples, blocks * 1152 * 2);
    assert!(session.is_ended());
    assert!(!session.has_failed());
    assert_eq!(session.skipped(), 0);
    assert_eq!(session.next_block(), None);
}

#[test]
fn a_block_with_another_channel_count_is_skipped_mid_stream() {
    let mut all_stereo = DecodeSession::open(mp3_stream(&[false; 5])).unwrap();
    let mut expected = 0;
    while all_stereo.next_block().is_some() {
        expected += 1;
    }
    let mut session = DecodeSession::open(mp3_stream(&[false, false, true, false, false])).unwrap();
    let mut blocks = 0;
    while let Some(data) = session.next_block() {
        assert_eq!(data.len(), 1152 * 2);
        blocks += 1;
    }
    assert_eq!(session.channels(), 2);
    assert_eq!(session.skipped(), 1);
    assert_eq!(blocks + 1, expected);
}

#[test]
fn frames_of_a_decoded_stream_have_one_sample_per_channel() {
    let mut session = DecodeSession::open(mp3_stream(&[true; 4])).unwrap();
    assert_eq!(session.channels(), 1);
    let mut frames = 0;
    while let Some(frame) = session.next_frame() {
        assert_eq!(frame.samples.len(), 1);
        frames += 1;
    }
    assert!(frames >= 1152);
    assert_eq!(frames % 1152, 0);
}
