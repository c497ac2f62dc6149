use audioprint::{detect_peaks, Peak};

#[test]
fn strongest_qualifying_bin_per_band() {
    let spectrogram = vec![vec![0, 0, 5, 1, 0, 0, 3, 3, 9, 1, 2, 2]];
    let peaks = detect_peaks(&spectrogram, 6, 100);
    assert_eq!(
        peaks,
        vec![
            Peak { frame_index: 0, freq_bin: 2, magnitude: 5 },
            Peak { frame_index: 0, freq_bin: 6, magnitude: 3 },
            Peak { frame_index: 0, freq_bin: 8, magnitude: 9 },
            Peak { frame_index: 0, freq_bin: 10, magnitude: 2 },
        ]
    );
}

#[test]
fn ties_pick_the_first_bin() {
    let spectrogram = vec![vec![4, 4, 4, 4]];
    let peaks = detect_peaks(&spectrogram, 1, 100);
    assert_eq!(peaks, vec![Peak { frame_index: 0, freq_bin: 0, magnitude: 4 }]);
}

#[test]
fn silent_bands_emit_nothing() {
    let spectrogram = vec![vec![0, 0, 0, 0, 0, 0]];
    let peaks = detect_peaks(&spectrogram, 3, 100);
    assert!(peaks.is_empty());
}

#[test]
fn high_threshold_rejects_uniform_bands() {
    // With a multiplier of one thousand, a uniform band's maximum equals its
    // mean and cannot exceed the threshold.
    let spectrogram = vec![vec![7, 7, 7, 7]];
    let peaks = detect_peaks(&spectrogram, 2, 1_000_000);
    assert!(peaks.is_empty());
}

#[test]
fn at_most_one_peak_per_band() {
    let spectrogram = vec![
        (1..=12u32).collect::<Vec<u32>>(),
        (10..=21u32).collect::<Vec<u32>>(),
    ];
    let peaks = detect_peaks(&spectrogram, 6, 100);
    for frame_index in 0..2 {
        let per_frame = peaks.iter().filter(|p| p.frame_index == frame_index).count();
        assert!(per_frame <= 6);
    }
    // Every band of these frames has a qualifying maximum.
    assert_eq!(peaks.len(), 12);
}

#[test]
fn final_band_absorbs_remainder_bins() {
    let mut frame = vec![0u32; 13];
    frame[12] = 50;
    let peaks = detect_peaks(&vec![frame], 6, 100);
    // Bin 12 lies past 6 bands of width 2; the final band still covers it.
    assert_eq!(peaks, vec![Peak { frame_index: 0, freq_bin: 12, magnitude: 50 }]);
}

#[test]
fn fewer_bins_than_bands() {
    let spectrogram = vec![vec![1, 9, 1]];
    let peaks = detect_peaks(&spectrogram, 6, 100);
    assert_eq!(peaks, vec![Peak { frame_index: 0, freq_bin: 1, magnitude: 9 }]);
}

#[test]
fn peaks_are_frame_ordered() {
    let spectrogram = vec![vec![0, 8], vec![9, 0], vec![0, 0], vec![3, 4]];
    let peaks = detect_peaks(&spectrogram, 1, 100);
    assert_eq!(
        peaks,
        vec![
            Peak { frame_index: 0, freq_bin: 1, magnitude: 8 },
            Peak { frame_index: 1, freq_bin: 0, magnitude: 9 },
            Peak { frame_index: 3, freq_bin: 1, magnitude: 4 },
        ]
    );
}
