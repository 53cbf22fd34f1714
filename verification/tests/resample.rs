use player_core::error::SetupError;
use player_core::resample::Resampler;
use rand::RngCore;

#[test]
fn configure_keeps_its_arguments() {
    let rs = Resampler::configure(44100, 48000, 2, 1024).unwrap();
    assert_eq!(rs.source_rate(), 44100);
    assert_eq!(rs.target_rate(), 48000);
    assert_eq!(rs.channels(), 2);
    assert_eq!(rs.chunk_frames(), 1024);
    assert_eq!(rs.pending_frames(), 0);
    assert!(!rs.is_passthrough());
}

#[test]
fn configure_rejects_zero_rates() {
    assert_eq!(Resampler::configure(0, 48000, 2, 8).err(), Some(SetupError::InvalidSampleRate));
    assert_eq!(Resampler::configure(44100, 0, 2, 8).err(), Some(SetupError::InvalidSampleRate));
    assert_eq!(Resampler::configure(0, 0, 0, 0).err(), Some(SetupError::InvalidSampleRate));
}

#[test]
fn configure_rejects_zero_channels() {
    assert_eq!(Resampler::configure(44100, 48000, 0, 8).err(), Some(SetupError::InvalidChannelCount));
}

#[test]
fn configure_rejects_impossible_batches() {
    assert_eq!(Resampler::configure(44100, 48000, 2, 0).err(), Some(SetupError::QueueTooLarge));
    assert_eq!(
        Resampler::configure(44100, 48000, 2, usize::MAX).err(),
        Some(SetupError::QueueTooLarge)
    );
}

#[test]
fn pass_through_is_the_identity() {
    let mut rs = Resampler::configure(48000, 48000, 2, 4).unwrap();
    assert!(rs.is_passthrough());
    let frames: Vec<i16> = vec![1, -2, 3, -4, i16::MAX, i16::MIN, 0, 7];
    assert_eq!(rs.push(&frames), frames);
    assert_eq!(rs.pending_frames(), 0);
    assert_eq!(rs.take_chunk(), None);
    assert_eq!(rs.flush(), None);
    assert_eq!(rs.push(&[]), Vec::<i16>::new());
}

#[test]
fn pass_through_ignores_a_trailing_partial_frame() {
    let mut rs = Resampler::configure(48000, 48000, 2, 4).unwrap();
    assert_eq!(rs.push(&[1, 2, 3]), vec![1, 2]);
}

#[test]
fn push_keeps_frames_for_the_next_batch() {
    let mut rs = Resampler::configure(44100, 48000, 2, 2).unwrap();
    assert_eq!(rs.push(&[1, 2, 3]), Vec::<i16>::new());
    assert_eq!(rs.pending_frames(), 1);
    assert_eq!(rs.take_chunk(), None);
    assert_eq!(rs.push(&[3, 4, 5, 6]), Vec::<i16>::new());
    assert_eq!(rs.pending_frames(), 3);
}

#[test]
fn take_chunk_cuts_full_batches_in_order() {
    let mut rs = Resampler::configure(44100, 48000, 2, 2).unwrap();
    rs.push(&[1, 2, 3, 4, 5, 6, 7, 8, 9, 10]);
    assert_eq!(rs.take_chunk(), Some(vec![vec![1, 3], vec![2, 4]]));
    assert_eq!(rs.take_chunk(), Some(vec![vec![5, 7], vec![6, 8]]));
    assert_eq!(rs.take_chunk(), None);
    assert_eq!(rs.pending_frames(), 1);
}

#[test]
fn flush_pads_the_last_batch_with_zeros() {
    let mut rs = Resampler::configure(44100, 48000, 2, 3).unwrap();
    rs.push(&[1, 2, 3, 4]);
    assert_eq!(rs.flush(), Some(vec![vec![1, 3, 0], vec![2, 4, 0]]));
    assert_eq!(rs.pending_frames(), 0);
    assert_eq!(rs.flush(), None);
}

#[test]
fn flush_takes_at_most_one_batch() {
    let mut rs = Resampler::configure(44100, 48000, 1, 2).unwrap();
    rs.push(&[1, 2, 3]);
    assert_eq!(rs.flush(), Some(vec![vec![1, 2]]));
    assert_eq!(rs.flush(), Some(vec![vec![3, 0]]));
    assert_eq!(rs.flush(), None);
}

#[test]
fn interleave_undoes_the_cut() {
    let mut rs = Resampler::configure(44100, 48000, 3, 2).unwrap();
    let frames: Vec<i16> = vec![1, 2, 3, 4, 5, 6];
    rs.push(&frames);
    let chunk = rs.take_chunk().unwrap();
    assert_eq!(chunk, vec![vec![1, 4], vec![2, 5], vec![3, 6]]);
    assert_eq!(rs.interleave(&chunk), Some(frames));
}

#[test]
fn interleave_works_on_any_sample_type() {
    let rs = Resampler::configure(44100, 48000, 2, 8).unwrap();
    let planar = vec![vec![0.5f32, 0.25, 0.0], vec![-0.5f32, -0.25, 1.0]];
    assert_eq!(rs.interleave(&planar), Some(vec![0.5, -0.5, 0.25, -0.25, 0.0, 1.0]));
    let empty: Vec<Vec<f32>> = vec![vec![], vec![]];
    assert_eq!(rs.interleave(&empty), Some(vec![]));
}

#[test]
fn interleave_rejects_a_batch_of_the_wrong_shape() {
    let rs = Resampler::configure(44100, 48000, 2, 8).unwrap();
    assert_eq!(rs.interleave(&vec![vec![1i16, 2]]), None);
    assert_eq!(rs.interleave(&vec![vec![1i16, 2], vec![3]]), None);
    assert_eq!(rs.interleave(&vec![vec![1i16], vec![2], vec![3]]), None);
    assert_eq!(rs.interleave(&Vec::<Vec<i16>>::new()), None);
}

#[test]
fn nominal_output_frames_follows_the_ratio() {
    let up = Resampler::configure(44100, 48000, 2, 8).unwrap();
    assert_eq!(up.nominal_output_frames(44100), 48000);
    assert_eq!(up.nominal_output_frames(1024), 1114);
    assert_eq!(up.nominal_output_frames(1), 1);
    assert_eq!(up.nominal_output_frames(0), 0);
    let down = Resampler::configure(48000, 44100, 2, 8).unwrap();
    assert_eq!(down.nominal_output_frames(512), 470);
    assert_eq!(down.nominal_output_frames(1), 0);
    let same = Resampler::configure(48000, 48000, 2, 8).unwrap();
    assert_eq!(same.nominal_output_frames(12345), 12345);
    let wide = Resampler::configure(1, u32::MAX, 1, 8).unwrap();
    assert_eq!(wide.nominal_output_frames(u64::MAX), u64::MAX as u128 * u32::MAX as u128);
}

#[test]
fn batches_put_together_again_are_the_input_padded_with_zeros() {
    let mut rng = rand::thread_rng();
    for _ in 0..200 {
        let channels = 1 + (rng.next_u32() % 4) as usize;
        let chunk = 1 + (rng.next_u32() % 9) as usize;
        let frames = (rng.next_u32() % 60) as usize;
        let input: Vec<i16> = (0..frames * channels).map(|_| rng.next_u32() as i16 | 1).collect();
        let mut rs = Resampler::configure(8000, 11025, channels, chunk).unwrap();
        let mut output: Vec<i16> = Vec::new();
        let mut fed = 0;
        while fed < input.len() {
            let n = ((1 + (rng.next_u32() % 7) as usize) * channels).min(input.len() - fed);
            assert_eq!(rs.push(&input[fed..fed + n]), Vec::<i16>::new());
            fed += n;
            while let Some(batch) = rs.take_chunk() {
                assert_eq!(batch.len(), channels);
                assert!(batch.iter().all(|lane| lane.len() == chunk));
                output.extend(rs.interleave(&batch).unwrap());
            }
        }
        let cut_before_flush = output.len();
        assert_eq!(cut_before_flush % (chunk * channels), 0);
        assert_eq!(output[..], input[..cut_before_flush]);
        while let Some(batch) = rs.flush() {
            output.extend(rs.interleave(&batch).unwrap());
        }
        assert_eq!(rs.pending_frames(), 0);
        assert!(output.len() >= input.len());
        assert!(output.len() < input.len() + chunk * channels);
        assert_eq!(output[..input.len()], input[..]);
        assert!(output[input.len()..].iter().all(|s| *s == 0));
    }
}
