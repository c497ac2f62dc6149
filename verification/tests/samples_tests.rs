use audioprint::{
    calculate_audio_stats, downmix_interleaved, downmix_stereo_to_mono, max_magnitude, safe_abs,
    validate_audio_format, validate_filter_taps, validate_pipeline_input, AudioError,
};

#[test]
fn safe_abs_handles_extremes() {
    assert_eq!(safe_abs(i16::MIN), 32768);
    assert_eq!(safe_abs(-5), 5);
    assert_eq!(safe_abs(0), 0);
    assert_eq!(safe_abs(7), 7);
    assert_eq!(safe_abs(i16::MAX), 32767);
}

#[test]
fn max_magnitude_of_empty_buffer_is_one() {
    assert_eq!(max_magnitude(&Vec::new()), 1);
}

#[test]
fn max_magnitude_finds_the_strongest_sample() {
    assert_eq!(max_magnitude(&vec![3, -10, 7]), 10);
    assert_eq!(max_magnitude(&vec![i16::MIN, 100]), 32768);
    assert_eq!(max_magnitude(&vec![0, 0]), 0);
}

#[test]
fn validation_rejects_empty_buffer() {
    assert_eq!(
        validate_audio_format(&Vec::new(), 44100),
        Err(AudioError::NoSamples)
    );
}

#[test]
fn validation_rejects_unusual_rate() {
    assert_eq!(
        validate_audio_format(&vec![1, 2, 3], 22050),
        Err(AudioError::UnusualSampleRate)
    );
}

#[test]
fn validation_rejects_high_variation() {
    // Magnitudes swing between 0 and 30000: the mean difference is 30000.
    let samples = vec![0, 30000, 0, 30000, 0, 30000];
    assert_eq!(
        validate_audio_format(&samples, 48000),
        Err(AudioError::HighSampleVariation)
    );
}

#[test]
fn validation_accepts_smooth_mono() {
    let samples: Vec<i16> = (0..100).map(|i| (i * 10) as i16).collect();
    assert_eq!(validate_audio_format(&samples, 44100), Ok(()));
    assert_eq!(validate_audio_format(&samples, 96000), Ok(()));
}

#[test]
fn validation_variation_boundary() {
    // One pair differing by exactly 10000 is not "greater than" the bound.
    assert_eq!(validate_audio_format(&vec![0, 10000], 44100), Ok(()));
    assert_eq!(
        validate_audio_format(&vec![0, 10001], 44100),
        Err(AudioError::HighSampleVariation)
    );
}

#[test]
fn stats_summarize_a_buffer() {
    let stats = calculate_audio_stats(&vec![1, -2, 3]);
    assert_eq!(stats.min, -2);
    assert_eq!(stats.max, 3);
    assert_eq!(stats.amplitude_sum, 6);
    assert_eq!(stats.zero_crossings, 2);
}

#[test]
fn stats_of_empty_buffer_use_identities() {
    let stats = calculate_audio_stats(&Vec::new());
    assert_eq!(stats.min, i16::MAX);
    assert_eq!(stats.max, i16::MIN);
    assert_eq!(stats.amplitude_sum, 0);
    assert_eq!(stats.zero_crossings, 0);
}

#[test]
fn stats_count_sign_changes_through_zero() {
    // Signs: + 0 - + : three changes.
    let stats = calculate_audio_stats(&vec![5, 0, -1, 2]);
    assert_eq!(stats.zero_crossings, 3);
}

#[test]
fn stereo_downmix_averages_pairs() {
    // Frames (100, 200) and (-40, -60) in little-endian bytes.
    let bytes = vec![100, 0, 200, 0, 216, 255, 196, 255];
    assert_eq!(downmix_stereo_to_mono(bytes), vec![150, -50]);
}

#[test]
fn stereo_downmix_rounds_toward_zero() {
    // (-3 + 2) / 2 is -0.5, which machine division truncates to 0.
    let bytes = vec![253, 255, 2, 0];
    assert_eq!(downmix_stereo_to_mono(bytes), vec![0]);
}

#[test]
fn stereo_downmix_of_empty_buffer() {
    assert_eq!(downmix_stereo_to_mono(Vec::new()), Vec::<i16>::new());
}

#[test]
fn interleaved_downmix_averages_channels() {
    let samples = vec![-3, 2, 10, 21];
    assert_eq!(downmix_interleaved(&samples, 2), vec![0, 15]);
}

#[test]
fn interleaved_downmix_drops_partial_frame() {
    let samples = vec![10, 20, 30];
    assert_eq!(downmix_interleaved(&samples, 2), vec![15]);
}

#[test]
fn interleaved_downmix_mono_is_identity() {
    let samples = vec![7, -8, 9];
    assert_eq!(downmix_interleaved(&samples, 1), samples);
}

#[test]
fn pipeline_input_check() {
    assert_eq!(validate_pipeline_input(0, 44100), Err(AudioError::NoSamples));
    assert_eq!(
        validate_pipeline_input(100, 8000),
        Err(AudioError::SampleRateTooLow)
    );
    assert_eq!(validate_pipeline_input(100, 11025), Ok(()));
    assert_eq!(validate_pipeline_input(1, 44100), Ok(()));
}

#[test]
fn filter_tap_check() {
    assert_eq!(validate_filter_taps(101), Ok(()));
    assert_eq!(validate_filter_taps(1), Ok(()));
    assert_eq!(validate_filter_taps(100), Err(AudioError::EvenFilterTaps));
    assert_eq!(validate_filter_taps(0), Err(AudioError::EvenFilterTaps));
}
