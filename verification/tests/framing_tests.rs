use audioprint::{decimate_signal, frame_signal};

#[test]
fn framing_emits_overlapping_full_frames() {
    let signal: Vec<f64> = (0..10).map(|i| i as f64).collect();
    let frames = frame_signal(&signal, 4, 2);
    // (10 - 4) / 2 + 1 = 4 frames.
    assert_eq!(frames.len(), 4);
    assert_eq!(frames[0], vec![0.0, 1.0, 2.0, 3.0]);
    assert_eq!(frames[1], vec![2.0, 3.0, 4.0, 5.0]);
    assert_eq!(frames[2], vec![4.0, 5.0, 6.0, 7.0]);
    assert_eq!(frames[3], vec![6.0, 7.0, 8.0, 9.0]);
}

#[test]
fn framing_drops_trailing_remainder() {
    let signal: Vec<i32> = (0..11).collect();
    let frames = frame_signal(&signal, 4, 2);
    // Samples 8..11 cannot fill a frame of 4 from start 8.
    assert_eq!(frames.len(), 4);
    assert_eq!(frames[3], vec![6, 7, 8, 9]);
}

#[test]
fn framing_short_signal_yields_no_frames() {
    let signal: Vec<f64> = vec![1.0, 2.0, 3.0];
    let frames = frame_signal(&signal, 4, 2);
    assert!(frames.is_empty());
}

#[test]
fn framing_exact_fit_yields_one_frame() {
    let signal: Vec<u8> = vec![9, 8, 7, 6];
    let frames = frame_signal(&signal, 4, 2);
    assert_eq!(frames, vec![vec![9, 8, 7, 6]]);
}

#[test]
fn frame_count_formula() {
    let signal: Vec<f64> = vec![0.0; 11025];
    let frames = frame_signal(&signal, 1024, 512);
    assert_eq!(frames.len(), (11025 - 1024) / 512 + 1);
    for frame in &frames {
        assert_eq!(frame.len(), 1024);
    }
}

#[test]
fn decimation_by_integer_factor() {
    let signal: Vec<f64> = (0..10).map(|i| i as f64).collect();
    let out = decimate_signal(&signal, 4, 2);
    // Factor 2: length 10 * 2 / 4 = 5, indices 0, 2, 4, 6, 8.
    assert_eq!(out, vec![0.0, 2.0, 4.0, 6.0, 8.0]);
}

#[test]
fn decimation_by_fractional_factor() {
    let signal: Vec<i32> = (0..6).collect();
    let out = decimate_signal(&signal, 3, 2);
    // Factor 3/2: length 6 * 2 / 3 = 4, indices floor(i * 3 / 2) = 0, 1, 3, 4.
    assert_eq!(out, vec![0, 1, 3, 4]);
}

#[test]
fn decimation_with_equal_rates_is_identity() {
    let signal: Vec<i32> = (0..7).collect();
    let out = decimate_signal(&signal, 11025, 11025);
    assert_eq!(out, signal);
}

#[test]
fn decimation_of_empty_signal() {
    let signal: Vec<f64> = Vec::new();
    let out = decimate_signal(&signal, 44100, 11025);
    assert!(out.is_empty());
}
