use audioprint::{decode_hash, encode_hash, hash_fingerprint, Peak};

#[test]
fn round_trip_in_range_components() {
    let hash = encode_hash(300, 200, 15);
    assert_eq!(decode_hash(hash), (300, 200, 15));

    let hash = encode_hash(0, 0, 0);
    assert_eq!(decode_hash(hash), (0, 0, 0));

    let hash = encode_hash(0x1FF, 0x1FF, 0x3FFF);
    assert_eq!(decode_hash(hash), (0x1FF, 0x1FF, 0x3FFF));
}

#[test]
fn out_of_range_components_are_clamped() {
    let hash = encode_hash(600, 99999, 20000);
    assert_eq!(decode_hash(hash), (0x1FF, 0x1FF, 0x3FFF));

    let hash = encode_hash(512, 3, 4);
    assert_eq!(decode_hash(hash), (0x1FF, 3, 4));
}

#[test]
fn hash_bit_layout_is_fixed() {
    // 1 << 23 for the anchor bin, 2 << 14 for the target bin, 3 for the delta.
    assert_eq!(encode_hash(1, 2, 3), (1 << 23) | (2 << 14) | 3);
}

fn peak(frame_index: usize, freq_bin: usize) -> Peak {
    Peak { frame_index, freq_bin, magnitude: 1000 }
}

#[test]
fn fingerprint_pairs_anchors_with_in_zone_targets() {
    let peaks = vec![peak(0, 10), peak(1, 20), peak(30, 5)];
    let hashes = hash_fingerprint(&peaks, 20);
    // Only (anchor 0, target 1) lies within the 20-frame zone.
    assert_eq!(hashes, vec![encode_hash(10, 20, 1)]);
}

#[test]
fn fingerprint_is_anchor_major_target_minor() {
    let peaks = vec![peak(0, 1), peak(1, 2), peak(2, 3)];
    let hashes = hash_fingerprint(&peaks, 20);
    assert_eq!(
        hashes,
        vec![
            encode_hash(1, 2, 1),
            encode_hash(1, 3, 2),
            encode_hash(2, 3, 1),
        ]
    );
}

#[test]
fn fingerprint_skips_out_of_order_peaks() {
    // The middle peak is behind the first in frame order: the scan skips the
    // backward pair but still pairs the first with the third.
    let peaks = vec![peak(5, 1), peak(2, 2), peak(6, 3)];
    let hashes = hash_fingerprint(&peaks, 20);
    assert_eq!(
        hashes,
        vec![encode_hash(1, 3, 1), encode_hash(2, 3, 4)]
    );
}

#[test]
fn fingerprint_of_empty_peaks_is_empty() {
    let hashes = hash_fingerprint(&Vec::new(), 20);
    assert!(hashes.is_empty());
}

#[test]
fn fingerprint_clamps_wide_pairs() {
    let peaks = vec![peak(0, 700), peak(1, 800)];
    let hashes = hash_fingerprint(&peaks, 20);
    assert_eq!(hashes, vec![encode_hash(0x1FF, 0x1FF, 1)]);
}
