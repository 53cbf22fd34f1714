use player_core::error::SetupError;
use player_core::render::fill_silence;
use player_core::render::AudioBufWriter;
use rand::RngCore;

#[test]
fn new_writer_is_empty() {
    let writer = AudioBufWriter::<i16>::new(2, 2, 8, 0).unwrap();
    assert_eq!(writer.channels(), 2);
    assert_eq!(writer.source_channels(), 2);
    assert_eq!(writer.queued_frames(), 0);
    assert_eq!(writer.free_frames(), 8);
    assert!(!writer.is_finished());
    assert_eq!(writer.underruns(), 0);
}

#[test]
fn new_rejects_zero_channels() {
    assert_eq!(
        AudioBufWriter::<i16>::new(0, 2, 8, 0).err(),
        Some(SetupError::InvalidChannelCount)
    );
    assert_eq!(
        AudioBufWriter::<i16>::new(2, 0, 8, 0).err(),
        Some(SetupError::InvalidChannelCount)
    );
}

#[test]
fn new_rejects_a_queue_that_cannot_be_addressed() {
    assert_eq!(
        AudioBufWriter::<i16>::new(2, 2, usize::MAX, 0).err(),
        Some(SetupError::QueueTooLarge)
    );
}

#[test]
fn fill_buf_plays_queued_frames_then_silence() {
    let mut writer = AudioBufWriter::<i16>::new(2, 2, 8, 0).unwrap();
    assert_eq!(writer.queue(&[1, 2, 3, 4]), 2);
    let mut out = [9i16; 8];
    writer.fill_buf(&mut out);
    assert_eq!(out, [1, 2, 3, 4, 0, 0, 0, 0]);
    assert_eq!(writer.queued_frames(), 0);
    assert_eq!(writer.underruns(), 1);
}

#[test]
fn fill_buf_keeps_the_excess_for_the_next_call() {
    let mut writer = AudioBufWriter::<i16>::new(2, 2, 8, 0).unwrap();
    assert_eq!(writer.queue(&[1, 2, 3, 4, 5, 6, 7, 8, 9, 10]), 5);
    let mut out = [0i16; 4];
    writer.fill_buf(&mut out);
    assert_eq!(out, [1, 2, 3, 4]);
    assert_eq!(writer.queued_frames(), 3);
    writer.fill_buf(&mut out);
    assert_eq!(out, [5, 6, 7, 8]);
    writer.fill_buf(&mut out);
    assert_eq!(out, [9, 10, 0, 0]);
    assert_eq!(writer.underruns(), 1);
}

#[test]
fn silence_after_the_end_is_no_underrun() {
    let mut writer = AudioBufWriter::<u16>::new(2, 2, 4, 0x8000).unwrap();
    writer.queue(&[1, 2]);
    writer.finish();
    assert!(writer.is_finished());
    let mut out = [7u16; 6];
    writer.fill_buf(&mut out);
    assert_eq!(out, [1, 2, 0x8000, 0x8000, 0x8000, 0x8000]);
    writer.fill_buf(&mut out);
    assert_eq!(out, [0x8000; 6]);
    assert_eq!(writer.underruns(), 0);
}

#[test]
fn empty_queue_before_the_end_counts_underruns() {
    let mut writer = AudioBufWriter::<i8>::new(1, 1, 4, 0).unwrap();
    let mut out = [5i8; 3];
    writer.fill_buf(&mut out);
    writer.fill_buf(&mut out);
    assert_eq!(out, [0, 0, 0]);
    assert_eq!(writer.underruns(), 2);
}

#[test]
fn mono_source_is_duplicated_into_both_channels() {
    let mut writer = AudioBufWriter::<i16>::new(2, 1, 8, 0).unwrap();
    assert_eq!(writer.queue(&[10, 20, 30]), 3);
    let mut out = [0i16; 6];
    writer.fill_buf(&mut out);
    assert_eq!(out, [10, 10, 20, 20, 30, 30]);
}

#[test]
fn mono_source_feeds_every_channel_of_a_wide_device() {
    let mut writer = AudioBufWriter::<i16>::new(4, 1, 8, 0).unwrap();
    writer.queue(&[7, 8]);
    let mut out = [0i16; 8];
    writer.fill_buf(&mut out);
    assert_eq!(out, [7, 7, 7, 7, 8, 8, 8, 8]);
}

#[test]
fn extra_source_channels_are_dropped() {
    let mut writer = AudioBufWriter::<i16>::new(2, 3, 8, 0).unwrap();
    assert_eq!(writer.queue(&[1, 2, 3, 4, 5, 6]), 2);
    let mut out = [0i16; 4];
    writer.fill_buf(&mut out);
    assert_eq!(out, [1, 2, 4, 5]);
    assert_eq!(writer.queued_frames(), 0);
}

#[test]
fn stereo_source_on_mono_device_keeps_the_first_channel() {
    let mut writer = AudioBufWriter::<i16>::new(1, 2, 8, 0).unwrap();
    writer.queue(&[1, 2, 3, 4]);
    let mut out = [0i16; 2];
    writer.fill_buf(&mut out);
    assert_eq!(out, [1, 3]);
}

#[test]
fn device_channels_without_a_source_stay_silent() {
    let mut writer = AudioBufWriter::<i16>::new(4, 2, 8, -1).unwrap();
    writer.queue(&[1, 2, 3, 4]);
    let mut out = [0i16; 8];
    writer.fill_buf(&mut out);
    assert_eq!(out, [1, 2, -1, -1, 3, 4, -1, -1]);
}

#[test]
fn trailing_partial_device_frame_is_silent() {
    let mut writer = AudioBufWriter::<i16>::new(2, 2, 8, 0).unwrap();
    writer.queue(&[1, 2, 3, 4, 5, 6]);
    let mut out = [9i16; 5];
    writer.fill_buf(&mut out);
    assert_eq!(out, [1, 2, 3, 4, 0]);
    assert_eq!(writer.queued_frames(), 1);
    assert_eq!(writer.underruns(), 0);
}

#[test]
fn empty_device_buffer_changes_nothing() {
    let mut writer = AudioBufWriter::<i16>::new(2, 2, 8, 0).unwrap();
    writer.queue(&[1, 2]);
    let mut out: [i16; 0] = [];
    writer.fill_buf(&mut out);
    assert_eq!(writer.queued_frames(), 1);
    assert_eq!(writer.underruns(), 0);
}

#[test]
fn queue_takes_whole_frames_up_to_capacity() {
    let mut writer = AudioBufWriter::<i16>::new(2, 2, 3, 0).unwrap();
    assert_eq!(writer.queue(&[1, 2, 3]), 1);
    assert_eq!(writer.queued_frames(), 1);
    assert_eq!(writer.queue(&[5, 6, 7, 8, 9, 10]), 2);
    assert_eq!(writer.free_frames(), 0);
    assert_eq!(writer.queue(&[11, 12]), 0);
    let mut out = [0i16; 6];
    writer.fill_buf(&mut out);
    assert_eq!(out, [1, 2, 5, 6, 7, 8]);
    assert_eq!(writer.free_frames(), 3);
}

#[test]
fn queue_survives_many_rounds_in_order() {
    let mut writer = AudioBufWriter::<i32>::new(2, 2, 5, 0).unwrap();
    let mut next_in: i32 = 0;
    let mut next_out: i32 = 0;
    for round in 0..40usize {
        let frames = 1 + round % 4;
        let data: Vec<i32> = (0..2 * frames as i32).map(|k| next_in + k).collect();
        let taken = writer.queue(&data);
        next_in += 2 * taken as i32;
        let mut out = vec![-1i32; 2 * (1 + round % 3)];
        let before = writer.queued_frames();
        writer.fill_buf(&mut out);
        let played = before.min(out.len() / 2);
        for (i, v) in out.iter().enumerate() {
            if i < 2 * played {
                assert_eq!(*v, next_out + i as i32);
            } else {
                assert_eq!(*v, 0);
            }
        }
        next_out += 2 * played as i32;
    }
}

#[test]
fn float_samples_pass_through_untouched() {
    let mut writer = AudioBufWriter::<f32>::new(2, 1, 4, 0.0).unwrap();
    writer.queue(&[0.25, -0.5]);
    let mut out = [1.0f32; 6];
    writer.fill_buf(&mut out);
    assert_eq!(out, [0.25, 0.25, -0.5, -0.5, 0.0, 0.0]);
}

#[test]
fn fill_silence_overwrites_every_sample() {
    let mut out = [3u8; 5];
    fill_silence(&mut out, 0x80);
    assert_eq!(out, [0x80; 5]);
}

#[test]
fn fill_buf_agrees_with_a_frame_by_frame_rendering_of_random_queues() {
    let mut rng = rand::thread_rng();
    for _ in 0..300 {
        let dev = 1 + (rng.next_u32() % 4) as usize;
        let src = 1 + (rng.next_u32() % 4) as usize;
        let capacity = (rng.next_u32() % 12) as usize;
        let offered = (rng.next_u32() % 40) as usize;
        let len = (rng.next_u32() % 30) as usize;
        let samples: Vec<u32> = (0..offered).map(|_| rng.next_u32() | 1).collect();
        let mut writer = AudioBufWriter::<u32>::new(dev, src, capacity, 0).unwrap();
        let accepted = writer.queue(&samples);
        assert_eq!(accepted, (offered / src).min(capacity));

        let played = accepted.min(len / dev);
        let mut expected = vec![0u32; len];
        for f in 0..played {
            for c in 0..dev {
                expected[f * dev + c] = if src == 1 {
                    samples[f]
                } else if c < src {
                    samples[f * src + c]
                } else {
                    0
                };
            }
        }
        let mut out = vec![u32::MAX; len];
        writer.fill_buf(&mut out);
        assert_eq!(out, expected);
        assert_eq!(writer.queued_frames(), accepted - played);
        assert_eq!(writer.underruns(), u64::from(played < len / dev));
    }
}
