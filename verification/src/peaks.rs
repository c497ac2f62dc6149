//! Spectral peak detection.
//!
//! Each frame's magnitude vector is partitioned into a fixed number of bands
//! of near-equal width; the final band absorbs the remainder bins so that
//! every bin belongs to exactly one band.  Within a band the single strongest
//! bin is selected, but only when its magnitude exceeds the band's local
//! threshold, the band's mean magnitude scaled by a tunable multiplier.
//!
//! Magnitudes are caller-chosen fixed-point values: the surrounding
//! application scales its spectral magnitudes into `u32` before handing them
//! to this module, and the threshold multiplier is given in thousandths, so
//! the threshold comparison is exact rational arithmetic.

use vstd::prelude::*;

verus! {

/// A spectral peak: the frame it was found in, the winning frequency bin,
/// and that bin's fixed-point magnitude.
#[derive(Clone, Copy, Debug, PartialEq, Eq, Structural)]
pub struct Peak {
    /// Index of the frame this peak belongs to.
    pub frame_index: usize,
    /// Index of the winning bin within the frame's magnitude vector.
    pub freq_bin: usize,
    /// Fixed-point magnitude of the winning bin.
    pub magnitude: u32,
}

/// First bin of band `b` when `bins` bins are split into `nb` bands.
pub open spec fn spec_band_start(bins: int, nb: int, b: int) -> int {
    b * (bins / nb)
}

/// One past the last bin of band `b`; the final band absorbs the remainder.
pub open spec fn spec_band_end(bins: int, nb: int, b: int) -> int {
    if b == nb - 1 {
        bins
    } else {
        (b + 1) * (bins / nb)
    }
}

/// Sum of the magnitudes of bins `start..end`.
pub open spec fn spec_band_sum(frame: Seq<u32>, start: int, end: int) -> int
    decreases end - start,
{
    if end <= start {
        0
    } else {
        spec_band_sum(frame, start, end - 1) + frame[end - 1]
    }
}

/// Largest magnitude among bins `start..end` (zero for an empty band).
pub open spec fn spec_band_max(frame: Seq<u32>, start: int, end: int) -> u32
    decreases end - start,
{
    if end <= start {
        0u32
    } else {
        let prev = spec_band_max(frame, start, end - 1);
        if frame[end - 1] > prev {
            frame[end - 1]
        } else {
            prev
        }
    }
}

/// First bin of `start..end` attaining the band maximum.
pub open spec fn spec_band_argmax(frame: Seq<u32>, start: int, end: int) -> int
    decreases end - start,
{
    if end <= start + 1 {
        start
    } else if frame[end - 1] > spec_band_max(frame, start, end - 1) {
        end - 1
    } else {
        spec_band_argmax(frame, start, end - 1)
    }
}

/// A band emits a peak when it is non-empty and its maximum strictly exceeds
/// its mean magnitude scaled by `permille` thousandths: with `n` bins the
/// comparison max > (sum / n) * (permille / 1000) is cross-multiplied to
/// max * n * 1000 > sum * permille, which is exact.
pub open spec fn spec_band_qualifies(frame: Seq<u32>, start: int, end: int, permille: int) -> bool {
    &&& end > start
    &&& spec_band_max(frame, start, end) * (end - start) * 1000 > spec_band_sum(frame, start, end)
        * permille
}

/// The peaks emitted for band `b` of frame `fi`: one peak when the band
/// qualifies, none otherwise.
pub open spec fn spec_band_peaks(frame: Seq<u32>, fi: int, nb: int, b: int, permille: int) -> Seq<
    Peak,
> {
    let bins = frame.len() as int;
    let start = spec_band_start(bins, nb, b);
    let end = spec_band_end(bins, nb, b);
    if spec_band_qualifies(frame, start, end, permille) {
        seq![
            Peak {
                frame_index: fi as usize,
                freq_bin: spec_band_argmax(frame, start, end) as usize,
                magnitude: spec_band_max(frame, start, end),
            },
        ]
    } else {
        Seq::empty()
    }
}

/// The peaks emitted for the first `b` bands of frame `fi`, in band order.
pub open spec fn spec_frame_peaks_upto(
    frame: Seq<u32>,
    fi: int,
    nb: int,
    b: int,
    permille: int,
) -> Seq<Peak>
    decreases b,
{
    if b <= 0 {
        Seq::empty()
    } else {
        spec_frame_peaks_upto(frame, fi, nb, b - 1, permille) + spec_band_peaks(
            frame,
            fi,
            nb,
            b - 1,
            permille,
        )
    }
}

/// All peaks emitted for frame `fi`.
pub open spec fn spec_frame_peaks(frame: Seq<u32>, fi: int, nb: int, permille: int) -> Seq<Peak> {
    spec_frame_peaks_upto(frame, fi, nb, nb, permille)
}

/// The peaks of the first `i` frames, in frame order.
pub open spec fn spec_peaks_upto(spect: Seq<Seq<u32>>, nb: int, i: int, permille: int) -> Seq<Peak>
    decreases i,
{
    if i <= 0 {
        Seq::empty()
    } else {
        spec_peaks_upto(spect, nb, i - 1, permille) + spec_frame_peaks(
            spect[i - 1],
            i - 1,
            nb,
            permille,
        )
    }
}

/// All peaks of the spectrogram, frame-major and band-minor.
pub open spec fn spec_detect_peaks(spect: Seq<Seq<u32>>, nb: int, permille: int) -> Seq<Peak> {
    spec_peaks_upto(spect, nb, spect.len() as int, permille)
}

/// Finds the strongest qualifying bin of every band of every frame.
///
/// `threshold_permille` is the peak-sensitivity multiplier in thousandths
/// (100 stands for the default multiplier of one tenth).  The bound on it
/// keeps the exact cross-multiplied threshold comparison inside machine
/// arithmetic.
pub fn detect_peaks(spectrogram: &Vec<Vec<u32>>, num_bands: usize, threshold_permille: u32) -> (peaks: Vec<Peak>)
    requires
        num_bands >= 1,
        threshold_permille <= 1_000_000,
    ensures
        peaks@ == spec_detect_peaks(spectrogram.deep_view(), num_bands as int, threshold_permille as int),
{
    let ghost sv = spectrogram.deep_view();
    let ghost nb = num_bands as int;
    let ghost perm = threshold_permille as int;
    let mut peaks: Vec<Peak> = Vec::new();
    let n_frames = spectrogram.len();
    let mut i: usize = 0;
    while i < n_frames
        invariant
            i <= n_frames,
            n_frames == sv.len(),
            sv == spectrogram.deep_view(),
            nb == num_bands as int,
            1 <= num_bands,
            threshold_permille <= 1_000_000,
            perm == threshold_permille as int,
            peaks@ == spec_peaks_upto(sv, nb, i as int, perm),
        decreases n_frames - i,
    {
        let frame: &Vec<u32> = &spectrogram[i];
        assert(frame@ == sv[i as int]);
        let bins = frame.len();
        let band_size = bins / num_bands;
        proof {
            vstd::arithmetic::div_mod::lemma_fundamental_div_mod(bins as int, nb);
            assert(nb * (bins as int / nb) <= bins as int);
        }
        let mut b: usize = 0;
        while b < num_bands
            invariant
                b <= num_bands,
                1 <= num_bands,
                nb == num_bands as int,
                threshold_permille <= 1_000_000,
                perm == threshold_permille as int,
                i < n_frames,
                n_frames == sv.len(),
                sv == spectrogram.deep_view(),
                frame@ == sv[i as int],
                bins == frame@.len(),
                band_size == bins as int / nb,
                nb * (band_size as int) <= bins as int,
                peaks@ == spec_peaks_upto(sv, nb, i as int, perm) + spec_frame_peaks_upto(
                    frame@,
                    i as int,
                    nb,
                    b as int,
                    perm,
                ),
            decreases num_bands - b,
        {
            assert((b as int) * (band_size as int) <= bins as int && (b as int + 1) * (
            band_size as int) <= nb * (band_size as int) && (b as int + 1) * (band_size as int)
                <= bins as int) by (nonlinear_arith)
                requires
                    0 <= b as int <= nb - 1,
                    0 <= band_size as int,
                    nb * (band_size as int) <= bins as int,
            ;
            assert((b as int + 1) * (band_size as int) == (b as int) * (band_size as int)
                + band_size as int) by (nonlinear_arith);
            let start = b * band_size;
            let end = if b == num_bands - 1 {
                bins
            } else {
                start + band_size
            };
            assert(start as int == spec_band_start(bins as int, nb, b as int));
            assert(end as int == spec_band_end(bins as int, nb, b as int));
            assert(start <= end) by (nonlinear_arith)
                requires
                    start as int == (b as int) * (band_size as int),
                    end as int == if b as int == nb - 1 {
                        bins as int
                    } else {
                        (b as int + 1) * (band_size as int)
                    },
                    0 <= b as int <= nb - 1,
                    0 <= band_size as int,
                    nb * (band_size as int) <= bins as int,
                    (b as int + 1) * (band_size as int) <= nb * (band_size as int),
            ;
            if end > start {
                let mut max_val: u32 = frame[start];
                let mut max_bin: usize = start;
                let mut band_sum: u128 = frame[start] as u128;
                let mut j: usize = start + 1;
                proof {
                    assert(spec_band_max(frame@, start as int, start as int) == 0);
                    assert(spec_band_sum(frame@, start as int, start as int) == 0);
                    assert(spec_band_argmax(frame@, start as int, start as int + 1)
                        == start as int);
                }
                while j < end
                    invariant
                        start < j <= end,
                        end <= bins,
                        bins == frame@.len(),
                        max_val == spec_band_max(frame@, start as int, j as int),
                        max_bin as int == spec_band_argmax(frame@, start as int, j as int),
                        band_sum as int == spec_band_sum(frame@, start as int, j as int),
                        band_sum <= (j - start) as u128 * 0xFFFF_FFFF,
                    decreases end - j,
                {
                    let v = frame[j];
                    if v > max_val {
                        max_val = v;
                        max_bin = j;
                    }
                    assert((j + 1 - start) as u128 * 0xFFFF_FFFF == (j - start) as u128
                        * 0xFFFF_FFFF + 0xFFFF_FFFF) by (nonlinear_arith)
                        requires
                            start < j + 1,
                    ;
                    band_sum = band_sum + v as u128;
                    j += 1;
                }
                let width = (end - start) as u128;
                assert((max_val as u128) * width * 1000 <= 0xFFFF_FFFFu128 * 0xFFFF_FFFF_FFFF_FFFF
                    * 1000) by (nonlinear_arith)
                    requires
                        max_val as u128 <= 0xFFFF_FFFFu128,
                        width <= 0xFFFF_FFFF_FFFF_FFFFu128,
                ;
                assert(band_sum * (threshold_permille as u128) <= (0xFFFF_FFFF_FFFF_FFFFu128
                    * 0xFFFF_FFFF) * 1_000_000) by (nonlinear_arith)
                    requires
                        band_sum <= 0xFFFF_FFFF_FFFF_FFFFu128 * 0xFFFF_FFFF,
                        threshold_permille as u128 <= 1_000_000,
                ;
                assert(band_sum <= 0xFFFF_FFFF_FFFF_FFFFu128 * 0xFFFF_FFFF) by (nonlinear_arith)
                    requires
                        band_sum <= (end - start) as u128 * 0xFFFF_FFFF,
                        (end - start) as u128 <= 0xFFFF_FFFF_FFFF_FFFFu128,
                ;
                if (max_val as u128) * width * 1000 > band_sum * (threshold_permille as u128) {
                    let p = Peak { frame_index: i, freq_bin: max_bin, magnitude: max_val };
                    peaks.push(p);
                    proof {
                        assert(spec_band_qualifies(frame@, start as int, end as int, perm));
                        assert(spec_band_peaks(frame@, i as int, nb, b as int, perm) =~= seq![p]);
                        assert(peaks@ =~= spec_peaks_upto(sv, nb, i as int, perm)
                            + spec_frame_peaks_upto(frame@, i as int, nb, b as int + 1, perm));
                    }
                } else {
                    proof {
                        assert(!spec_band_qualifies(frame@, start as int, end as int, perm));
                        assert(spec_band_peaks(frame@, i as int, nb, b as int, perm)
                            =~= Seq::<Peak>::empty());
                        assert(peaks@ =~= spec_peaks_upto(sv, nb, i as int, perm)
                            + spec_frame_peaks_upto(frame@, i as int, nb, b as int + 1, perm));
                    }
                }
            } else {
                proof {
                    assert(!spec_band_qualifies(frame@, start as int, end as int, perm));
                    assert(spec_band_peaks(frame@, i as int, nb, b as int, perm)
                        =~= Seq::<Peak>::empty());
                    assert(peaks@ =~= spec_peaks_upto(sv, nb, i as int, perm)
                        + spec_frame_peaks_upto(frame@, i as int, nb, b as int + 1, perm));
                }
            }
            b += 1;
        }
        i += 1;
    }
    peaks
}

/// The bands of a frame tile its bins: band zero starts at bin zero, each
/// band ends where the next begins, and the final band ends at the last bin.
pub proof fn lemma_bands_partition(bins: int, nb: int)
    requires
        nb >= 1,
        bins >= 0,
    ensures
        spec_band_start(bins, nb, 0) == 0,
        spec_band_end(bins, nb, nb - 1) == bins,
        forall|b: int|
            0 <= b < nb - 1 ==> spec_band_end(bins, nb, b) == spec_band_start(bins, nb, b + 1),
        forall|b: int|
            0 <= b < nb ==> spec_band_start(bins, nb, b) <= spec_band_end(bins, nb, b),
{
    vstd::arithmetic::div_mod::lemma_fundamental_div_mod(bins, nb);
    assert forall|b: int| 0 <= b < nb implies spec_band_start(bins, nb, b) <= spec_band_end(
        bins,
        nb,
        b,
    ) by {
        let bs = bins / nb;
        assert(b * bs <= (b + 1) * bs && (b + 1) * bs <= nb * bs) by (nonlinear_arith)
            requires
                0 <= b <= nb - 1,
                0 <= bs,
        ;
        assert(nb * bs <= bins);
    }
}

/// The first bin attaining a non-empty band's maximum lies inside the band.
proof fn lemma_argmax_in_range(frame: Seq<u32>, start: int, end: int)
    requires
        start < end,
    ensures
        start <= spec_band_argmax(frame, start, end) < end,
    decreases end - start,
{
    if start + 1 < end {
        lemma_argmax_in_range(frame, start, end - 1);
    }
}

/// Every peak a band emits carries that band's maximum magnitude, which
/// strictly exceeds the band's local threshold, and names a bin of the band.
pub proof fn lemma_emitted_peak_exceeds_threshold(
    frame: Seq<u32>,
    fi: int,
    nb: int,
    b: int,
    permille: int,
)
    requires
        nb >= 1,
        0 <= b < nb,
        frame.len() <= usize::MAX,
        spec_band_peaks(frame, fi, nb, b, permille).len() > 0,
    ensures
        ({
            let bins = frame.len() as int;
            let start = spec_band_start(bins, nb, b);
            let end = spec_band_end(bins, nb, b);
            let p = spec_band_peaks(frame, fi, nb, b, permille)[0];
            &&& p.magnitude == spec_band_max(frame, start, end)
            &&& p.magnitude * (end - start) * 1000 > spec_band_sum(frame, start, end) * permille
            &&& start <= p.freq_bin < end
        }),
{
    let bins = frame.len() as int;
    let start = spec_band_start(bins, nb, b);
    let end = spec_band_end(bins, nb, b);
    lemma_argmax_in_range(frame, start, end);
    assert(end <= bins) by {
        vstd::arithmetic::div_mod::lemma_fundamental_div_mod(bins, nb);
        let bs = bins / nb;
        if b < nb - 1 {
            assert((b + 1) * bs <= nb * bs) by (nonlinear_arith)
                requires
                    0 <= b <= nb - 1,
                    0 <= bs,
            ;
        }
    }
    let am = spec_band_argmax(frame, start, end);
    assert(am as usize == am);
}

/// How many of the first `m` peaks belong to frame `target`.
pub open spec fn spec_count_frame(peaks: Seq<Peak>, target: usize, m: int) -> nat
    decreases m,
{
    if m <= 0 {
        0
    } else {
        spec_count_frame(peaks, target, m - 1) + (if peaks[m - 1].frame_index == target {
            1nat
        } else {
            0nat
        })
    }
}

/// The per-frame peak count reads only the positions it counts.
proof fn lemma_count_frame_agrees(s1: Seq<Peak>, s2: Seq<Peak>, target: usize, m: int)
    requires
        forall|t: int| 0 <= t < m ==> #[trigger] s1[t] == s2[t],
    ensures
        spec_count_frame(s1, target, m) == spec_count_frame(s2, target, m),
    decreases m,
{
    if m > 0 {
        lemma_count_frame_agrees(s1, s2, target, m - 1);
    }
}

/// The per-frame peak count over a concatenation is the sum of the counts
/// over the parts.
proof fn lemma_count_frame_add(a: Seq<Peak>, b: Seq<Peak>, target: usize, k: int)
    requires
        0 <= k <= b.len(),
    ensures
        spec_count_frame(a + b, target, a.len() + k) == spec_count_frame(a, target, a.len() as int)
            + spec_count_frame(b, target, k),
    decreases k,
{
    if k == 0 {
        lemma_count_frame_agrees(a + b, a, target, a.len() as int);
    } else {
        lemma_count_frame_add(a, b, target, k - 1);
        assert((a + b)[a.len() + k - 1] == b[k - 1]);
    }
}

/// A sequence of peaks that all name one frame has no more members than its
/// length, and none from any other frame.
proof fn lemma_count_frame_of_uniform(s: Seq<Peak>, fi: usize, target: usize, m: int)
    requires
        0 <= m <= s.len(),
        forall|t: int| 0 <= t < s.len() ==> #[trigger] s[t].frame_index == fi,
    ensures
        target == fi ==> spec_count_frame(s, target, m) <= m,
        target != fi ==> spec_count_frame(s, target, m) == 0,
    decreases m,
{
    if m > 0 {
        lemma_count_frame_of_uniform(s, fi, target, m - 1);
    }
}

/// Every peak emitted for a frame names that frame.
proof fn lemma_frame_peaks_name_frame(frame: Seq<u32>, fi: int, nb: int, b: int, permille: int)
    requires
        b >= 0,
    ensures
        forall|t: int|
            0 <= t < spec_frame_peaks_upto(frame, fi, nb, b, permille).len()
                ==> #[trigger] spec_frame_peaks_upto(frame, fi, nb, b, permille)[t].frame_index
                == fi as usize,
    decreases b,
{
    if b > 0 {
        lemma_frame_peaks_name_frame(frame, fi, nb, b - 1, permille);
        let prev = spec_frame_peaks_upto(frame, fi, nb, b - 1, permille);
        let band = spec_band_peaks(frame, fi, nb, b - 1, permille);
        assert forall|t: int| 0 <= t < (prev + band).len() implies (prev + band)[t].frame_index
            == fi as usize by {
            if t < prev.len() {
                assert((prev + band)[t] == prev[t]);
            } else {
                assert((prev + band)[t] == band[t - prev.len()]);
            }
        }
    }
}

/// A frame emits at most one peak per band.
proof fn lemma_frame_peaks_len(frame: Seq<u32>, fi: int, nb: int, b: int, permille: int)
    requires
        b >= 0,
    ensures
        spec_frame_peaks_upto(frame, fi, nb, b, permille).len() <= b,
    decreases b,
{
    if b > 0 {
        lemma_frame_peaks_len(frame, fi, nb, b - 1, permille);
    }
}

/// Per-frame count of the peaks of the first `m` frames: at most one per
/// band, and none for frames not yet scanned.
proof fn lemma_peaks_upto_count(spect: Seq<Seq<u32>>, nb: int, permille: int, target: usize, m: int)
    requires
        nb >= 1,
        0 <= m <= spect.len(),
        spect.len() <= usize::MAX,
    ensures
        spec_count_frame(
            spec_peaks_upto(spect, nb, m, permille),
            target,
            spec_peaks_upto(spect, nb, m, permille).len() as int,
        ) <= nb,
        target as int >= m ==> spec_count_frame(
            spec_peaks_upto(spect, nb, m, permille),
            target,
            spec_peaks_upto(spect, nb, m, permille).len() as int,
        ) == 0,
    decreases m,
{
    if m > 0 {
        lemma_peaks_upto_count(spect, nb, permille, target, m - 1);
        let a = spec_peaks_upto(spect, nb, m - 1, permille);
        let fp = spec_frame_peaks(spect[m - 1], m - 1, nb, permille);
        lemma_frame_peaks_name_frame(spect[m - 1], m - 1, nb, nb, permille);
        lemma_frame_peaks_len(spect[m - 1], m - 1, nb, nb, permille);
        lemma_count_frame_add(a, fp, target, fp.len() as int);
        lemma_count_frame_of_uniform(fp, (m - 1) as usize, target, fp.len() as int);
    }
}

/// Peaks of the first `m` frames name frames below `m`.
proof fn lemma_peaks_upto_frame_bound(spect: Seq<Seq<u32>>, nb: int, permille: int, m: int)
    requires
        nb >= 1,
        0 <= m <= spect.len(),
        spect.len() <= usize::MAX,
    ensures
        forall|t: int|
            0 <= t < spec_peaks_upto(spect, nb, m, permille).len()
                ==> (#[trigger] spec_peaks_upto(spect, nb, m, permille)[t].frame_index) < m,
    decreases m,
{
    if m > 0 {
        lemma_peaks_upto_frame_bound(spect, nb, permille, m - 1);
        let a = spec_peaks_upto(spect, nb, m - 1, permille);
        let fp = spec_frame_peaks(spect[m - 1], m - 1, nb, permille);
        lemma_frame_peaks_name_frame(spect[m - 1], m - 1, nb, nb, permille);
        assert forall|t: int| 0 <= t < (a + fp).len() implies (a + fp)[t].frame_index < m by {
            if t < a.len() {
                assert((a + fp)[t] == a[t]);
            } else {
                assert((a + fp)[t] == fp[t - a.len()]);
            }
        }
    }
}

/// The peaks of the first `m` frames are ordered by frame index.
proof fn lemma_peaks_upto_ordered(
    spect: Seq<Seq<u32>>,
    nb: int,
    permille: int,
    m: int,
    t1: int,
    t2: int,
)
    requires
        nb >= 1,
        0 <= m <= spect.len(),
        spect.len() <= usize::MAX,
        0 <= t1 <= t2 < spec_peaks_upto(spect, nb, m, permille).len(),
    ensures
        spec_peaks_upto(spect, nb, m, permille)[t1].frame_index <= spec_peaks_upto(
            spect,
            nb,
            m,
            permille,
        )[t2].frame_index,
    decreases m,
{
    if m > 0 {
        let a = spec_peaks_upto(spect, nb, m - 1, permille);
        let fp = spec_frame_peaks(spect[m - 1], m - 1, nb, permille);
        lemma_frame_peaks_name_frame(spect[m - 1], m - 1, nb, nb, permille);
        lemma_peaks_upto_frame_bound(spect, nb, permille, m - 1);
        if t2 < a.len() {
            lemma_peaks_upto_ordered(spect, nb, permille, m - 1, t1, t2);
        } else {
            assert((a + fp)[t2] == fp[t2 - a.len()]);
            if t1 < a.len() {
                assert((a + fp)[t1] == a[t1]);
            } else {
                assert((a + fp)[t1] == fp[t1 - a.len()]);
            }
        }
    }
}

/// The detector emits peaks frame-major: later peaks never name an earlier
/// frame, the order the hash encoder's target zone relies on.
pub proof fn lemma_detect_peaks_frame_ordered(
    spect: Seq<Seq<u32>>,
    nb: int,
    permille: int,
    t1: int,
    t2: int,
)
    requires
        nb >= 1,
        spect.len() <= usize::MAX,
        0 <= t1 <= t2 < spec_detect_peaks(spect, nb, permille).len(),
    ensures
        spec_detect_peaks(spect, nb, permille)[t1].frame_index <= spec_detect_peaks(
            spect,
            nb,
            permille,
        )[t2].frame_index,
{
    lemma_peaks_upto_ordered(spect, nb, permille, spect.len() as int, t1, t2);
}

/// At most `nb` peaks are emitted for any single frame.
pub proof fn lemma_at_most_num_bands_per_frame(
    spect: Seq<Seq<u32>>,
    nb: int,
    permille: int,
    target: usize,
)
    requires
        nb >= 1,
        spect.len() <= usize::MAX,
    ensures
        spec_count_frame(
            spec_detect_peaks(spect, nb, permille),
            target,
            spec_detect_peaks(spect, nb, permille).len() as int,
        ) <= nb,
{
    lemma_peaks_upto_count(spect, nb, permille, target, spect.len() as int);
}

} // verus!
