//! Combinatorial hash encoding.
//!
//! A hash packs an anchor peak's frequency bin, a target peak's frequency bin
//! and the frame distance between them into one 32-bit code:
//! bits [31:23] anchor bin, bits [22:14] target bin, bits [13:0] frame delta.
//! Out-of-range components are clamped, not rejected: extreme bins rarely
//! carry perceptually significant signal, and the clamp masks must stay
//! bit-identical across implementations for fingerprint compatibility.

use vstd::prelude::*;

use crate::peaks::Peak;

verus! {

/// Largest value a 9-bit frequency field can carry.
pub const FREQ_FIELD_MAX: u32 = 0x1FF;

/// Largest value the 14-bit frame-delta field can carry.
pub const DELTA_FIELD_MAX: u32 = 0x3FFF;

/// A frequency bin as stored in a hash: clamped to 9 bits.
pub open spec fn clamp_freq(f: u32) -> u32 {
    if f > 0x1FF { 0x1FF } else { f }
}

/// A frame delta as stored in a hash: clamped to 14 bits.
pub open spec fn clamp_delta(dt: u32) -> u32 {
    if dt > 0x3FFF { 0x3FFF } else { dt }
}

/// The 32-bit code for an (anchor bin, target bin, frame delta) triple.
pub open spec fn spec_encode_hash(f1: u32, f2: u32, dt: u32) -> u32 {
    (clamp_freq(f1) << 23) | (clamp_freq(f2) << 14) | clamp_delta(dt)
}

/// The anchor frequency field of a hash.
pub open spec fn spec_hash_f1(hash: u32) -> u32 {
    (hash >> 23) & 0x1FF
}

/// The target frequency field of a hash.
pub open spec fn spec_hash_f2(hash: u32) -> u32 {
    (hash >> 14) & 0x1FF
}

/// The frame-delta field of a hash.
pub open spec fn spec_hash_dt(hash: u32) -> u32 {
    hash & 0x3FFF
}

/// Packs an anchor bin, a target bin and a frame delta into one hash code,
/// clamping each component to its field width.
pub fn encode_hash(f1: u32, f2: u32, dt: u32) -> (hash: u32)
    ensures
        hash == spec_encode_hash(f1, f2, dt),
{
    let f1c: u32 = if f1 > FREQ_FIELD_MAX { FREQ_FIELD_MAX } else { f1 };
    let f2c: u32 = if f2 > FREQ_FIELD_MAX { FREQ_FIELD_MAX } else { f2 };
    let dtc: u32 = if dt > DELTA_FIELD_MAX { DELTA_FIELD_MAX } else { dt };
    (f1c << 23u32) | (f2c << 14u32) | dtc
}

/// Extracts the (anchor bin, target bin, frame delta) components of a hash.
pub fn decode_hash(hash: u32) -> (parts: (u32, u32, u32))
    ensures
        parts.0 == spec_hash_f1(hash),
        parts.1 == spec_hash_f2(hash),
        parts.2 == spec_hash_dt(hash),
{
    let f1: u32 = (hash >> 23u32) & 0x1FF;
    let f2: u32 = (hash >> 14u32) & 0x1FF;
    let dt: u32 = hash & 0x3FFF;
    (f1, f2, dt)
}

/// Every decoded component fits its field width.
pub proof fn lemma_decode_bounds(hash: u32)
    ensures
        spec_hash_f1(hash) <= 0x1FF,
        spec_hash_f2(hash) <= 0x1FF,
        spec_hash_dt(hash) <= 0x3FFF,
{
    assert((hash >> 23) & 0x1FF <= 0x1FF) by (bit_vector);
    assert((hash >> 14) & 0x1FF <= 0x1FF) by (bit_vector);
    assert(hash & 0x3FFF <= 0x3FFF) by (bit_vector);
}

/// Whether `target` lies in `anchor`'s target zone: at the anchor's frame or
/// at most `zone` frames after it.
pub open spec fn spec_pair_in_zone(anchor: Peak, target: Peak, zone: int) -> bool {
    &&& anchor.frame_index <= target.frame_index
    &&& target.frame_index - anchor.frame_index <= zone
}

/// The hash code emitted for an anchor/target pair.
pub open spec fn spec_pair_hash(anchor: Peak, target: Peak) -> u32 {
    spec_encode_hash(
        anchor.freq_bin as u32,
        target.freq_bin as u32,
        (target.frame_index - anchor.frame_index) as u32,
    )
}

/// Hashes of anchor `i` paired with the in-zone targets among positions
/// `i+1 .. j`, in position order.
pub open spec fn spec_anchor_hashes_upto(peaks: Seq<Peak>, i: int, j: int, zone: int) -> Seq<u32>
    decreases j,
{
    if i < 0 || j <= i + 1 {
        Seq::empty()
    } else {
        let prev = spec_anchor_hashes_upto(peaks, i, j - 1, zone);
        if spec_pair_in_zone(peaks[i], peaks[j - 1], zone) {
            prev.push(spec_pair_hash(peaks[i], peaks[j - 1]))
        } else {
            prev
        }
    }
}

/// All hashes of anchor `i`.
pub open spec fn spec_anchor_hashes(peaks: Seq<Peak>, i: int, zone: int) -> Seq<u32> {
    spec_anchor_hashes_upto(peaks, i, peaks.len() as int, zone)
}

/// Hashes of the anchors below `i`, anchor-major and target-minor.
pub open spec fn spec_fingerprint_upto(peaks: Seq<Peak>, i: int, zone: int) -> Seq<u32>
    decreases i,
{
    if i <= 0 {
        Seq::empty()
    } else {
        spec_fingerprint_upto(peaks, i - 1, zone) + spec_anchor_hashes(peaks, i - 1, zone)
    }
}

/// The fingerprint of a peak list: every ordered pair of an anchor and a
/// later in-zone target, encoded, anchor-major and target-minor.
pub open spec fn spec_hash_fingerprint(peaks: Seq<Peak>, zone: int) -> Seq<u32> {
    spec_fingerprint_upto(peaks, peaks.len() as int, zone)
}

/// Pairs every peak with each later peak whose frame lies within
/// `target_zone` frames and encodes one hash per pair.
///
/// The scan skips, rather than stops at, out-of-zone pairs, so the result is
/// exact for any peak order; peaks that are out of frame order simply pair
/// with nothing behind them.  One anchor fans out to every valid target: a
/// deliberate redundancy that makes the fingerprint robust to losing single
/// peaks in noise.
pub fn hash_fingerprint(peaks: &Vec<Peak>, target_zone: usize) -> (hashes: Vec<u32>)
    ensures
        hashes@ == spec_hash_fingerprint(peaks@, target_zone as int),
{
    let n = peaks.len();
    let mut hashes: Vec<u32> = Vec::new();
    let mut i: usize = 0;
    while i < n
        invariant
            i <= n,
            n == peaks@.len(),
            hashes@ == spec_fingerprint_upto(peaks@, i as int, target_zone as int),
        decreases n - i,
    {
        let anchor = peaks[i];
        let mut j: usize = i + 1;
        while j < n
            invariant
                i < n,
                i + 1 <= j <= n,
                n == peaks@.len(),
                anchor == peaks@[i as int],
                hashes@ == spec_fingerprint_upto(peaks@, i as int, target_zone as int)
                    + spec_anchor_hashes_upto(peaks@, i as int, j as int, target_zone as int),
            decreases n - j,
        {
            let target = peaks[j];
            if target.frame_index >= anchor.frame_index && target.frame_index - anchor.frame_index
                <= target_zone {
                let dt = target.frame_index - anchor.frame_index;
                let h = encode_hash(
                    #[verifier::truncate] (anchor.freq_bin as u32),
                    #[verifier::truncate] (target.freq_bin as u32),
                    #[verifier::truncate] (dt as u32),
                );
                hashes.push(h);
            }
            j += 1;
        }
        i += 1;
    }
    hashes
}

/// Hash round-trip: decoding an encoded hash recovers each in-range component
/// exactly.
pub proof fn lemma_hash_round_trip(f1: u32, f2: u32, dt: u32)
    requires
        f1 <= 0x1FF,
        f2 <= 0x1FF,
        dt <= 0x3FFF,
    ensures
        spec_hash_f1(spec_encode_hash(f1, f2, dt)) == f1,
        spec_hash_f2(spec_encode_hash(f1, f2, dt)) == f2,
        spec_hash_dt(spec_encode_hash(f1, f2, dt)) == dt,
{
    assert(((((f1 << 23) | (f2 << 14) | dt) >> 23) & 0x1FF) == f1) by (bit_vector)
        requires
            f1 <= 0x1FF,
            f2 <= 0x1FF,
            dt <= 0x3FFF,
    ;
    assert(((((f1 << 23) | (f2 << 14) | dt) >> 14) & 0x1FF) == f2) by (bit_vector)
        requires
            f1 <= 0x1FF,
            f2 <= 0x1FF,
            dt <= 0x3FFF,
    ;
    assert((((f1 << 23) | (f2 << 14) | dt) & 0x3FFF) == dt) by (bit_vector)
        requires
            f1 <= 0x1FF,
            f2 <= 0x1FF,
            dt <= 0x3FFF,
    ;
}

} // verus!
