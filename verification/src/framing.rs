//! Framing and decimation.
//!
//! Both stages are pure index arithmetic, so they are generic in the sample
//! type: the surrounding application instantiates them with its
//! floating-point samples, while the contracts speak only of positions.

use vstd::prelude::*;

verus! {

/// Number of complete frames of length `frame_size` at hop `hop_size` in a
/// signal of length `len`: zero when no full frame fits, else one more than
/// the number of whole hops before the last full frame.
pub open spec fn spec_frame_count(len: int, frame_size: int, hop_size: int) -> int {
    if len >= frame_size {
        (len - frame_size) / hop_size + 1
    } else {
        0
    }
}

/// Splits a signal into overlapping frames: frame `i` starts at
/// `i * hop_size` and carries exactly `frame_size` samples; a trailing
/// remainder shorter than a full frame is dropped.
pub fn frame_signal<T: Copy>(signal: &Vec<T>, frame_size: usize, hop_size: usize) -> (frames: Vec<
    Vec<T>,
>)
    requires
        frame_size >= 1,
        hop_size >= 1,
    ensures
        frames@.len() == spec_frame_count(
            signal@.len() as int,
            frame_size as int,
            hop_size as int,
        ),
        forall|i: int|
            0 <= i < frames@.len() ==> #[trigger] frames@[i]@ == signal@.subrange(
                i * hop_size,
                i * hop_size + frame_size,
            ),
{
    let n = signal.len();
    let mut frames: Vec<Vec<T>> = Vec::new();
    if n < frame_size {
        return frames;
    }
    let last_start = n - frame_size;
    let mut start: usize = 0;
    proof {
        assert(frames@.len() * hop_size == 0) by (nonlinear_arith)
            requires
                frames@.len() == 0,
        ;
    }
    loop
        invariant_except_break
            start == frames@.len() * hop_size,
        invariant
            frame_size >= 1,
            hop_size >= 1,
            n == signal@.len(),
            n >= frame_size,
            last_start == n - frame_size,
            start <= last_start,
            forall|i: int|
                0 <= i < frames@.len() ==> #[trigger] frames@[i]@ == signal@.subrange(
                    i * hop_size,
                    i * hop_size + frame_size,
                ),
        ensures
            frames@.len() >= 1,
            start == (frames@.len() - 1) * hop_size,
            start <= last_start,
            last_start - start < hop_size,
            forall|i: int|
                0 <= i < frames@.len() ==> #[trigger] frames@[i]@ == signal@.subrange(
                    i * hop_size,
                    i * hop_size + frame_size,
                ),
        decreases last_start - start,
    {
        let mut fr: Vec<T> = Vec::new();
        let mut k: usize = 0;
        while k < frame_size
            invariant
                k <= frame_size,
                n == signal@.len(),
                start + frame_size <= n,
                fr@ == signal@.subrange(start as int, start as int + k as int),
            decreases frame_size - k,
        {
            fr.push(signal[start + k]);
            assert(fr@ =~= signal@.subrange(start as int, start as int + k as int + 1));
            k += 1;
        }
        let ghost old_count = frames@.len();
        frames.push(fr);
        proof {
            assert((old_count + 1) * hop_size == old_count * hop_size + hop_size)
                by (nonlinear_arith);
            assert(frames@[old_count as int]@ == signal@.subrange(
                old_count * hop_size,
                old_count * hop_size + frame_size,
            ));
        }
        if last_start - start < hop_size {
            break;
        }
        start += hop_size;
    }
    proof {
        let count = frames@.len() as int;
        let len = n as int;
        let f = frame_size as int;
        let h = hop_size as int;
        assert(count >= 1);
        assert((count - 1) * h <= len - f < (count - 1) * h + h);
        assert((len - f) / h == count - 1) by {
            vstd::arithmetic::div_mod::lemma_fundamental_div_mod_converse(
                len - f,
                h,
                count - 1,
                len - f - (count - 1) * h,
            );
        }
    }
    frames
}

/// Length of the signal after decimation by the rational factor
/// `source_rate / target_rate`.
pub open spec fn spec_decimated_len(len: int, source_rate: int, target_rate: int) -> int {
    (len * target_rate) / source_rate
}

/// Index of the source sample selected for decimated position `i`:
/// the floor of `i` times the decimation factor.
pub open spec fn spec_decimated_index(i: int, source_rate: int, target_rate: int) -> int {
    (i * source_rate) / target_rate
}

/// Decimates a filtered signal by selecting, for each output position `i`,
/// the sample at the floor of `i` times `source_rate / target_rate`.  This
/// floor-indexed selection, not an interpolating resampler, is the intended
/// behaviour: downstream hash values are derived from it and must stay
/// reproducible.
pub fn decimate_signal<T: Copy>(signal: &Vec<T>, source_rate: u32, target_rate: u32) -> (out: Vec<
    T,
>)
    requires
        1 <= target_rate <= source_rate,
    ensures
        out@.len() == spec_decimated_len(signal@.len() as int, source_rate as int, target_rate as int),
        forall|i: int|
            0 <= i < out@.len() ==> #[trigger] out@[i] == signal@[spec_decimated_index(
                i,
                source_rate as int,
                target_rate as int,
            )],
{
    let n = signal.len();
    let s128 = source_rate as u128;
    let t128 = target_rate as u128;
    proof {
        let ni = n as int;
        let ti = target_rate as int;
        let si = source_rate as int;
        assert(ni * ti <= 0xFFFF_FFFF_FFFF_FFFF * 0xFFFF_FFFF) by (nonlinear_arith)
            requires
                0 <= ni <= 0xFFFF_FFFF_FFFF_FFFF,
                0 <= ti <= 0xFFFF_FFFF,
        ;
        assert(ni * ti / si <= ni) by (nonlinear_arith)
            requires
                1 <= ti <= si,
                0 <= ni,
        ;
    }
    let new_len_wide: u128 = (n as u128) * t128 / s128;
    let new_len: usize = new_len_wide as usize;
    let mut out: Vec<T> = Vec::new();
    let mut i: usize = 0;
    while i < new_len
        invariant
            i <= new_len,
            n == signal@.len(),
            s128 == source_rate as int,
            t128 == target_rate as int,
            1 <= t128 <= s128,
            new_len as int == spec_decimated_len(n as int, source_rate as int, target_rate as int),
            out@.len() == i as int,
            forall|k: int|
                0 <= k < i as int ==> #[trigger] out@[k] == signal@[spec_decimated_index(
                    k,
                    source_rate as int,
                    target_rate as int,
                )],
        decreases new_len - i,
    {
        proof {
            let ii = i as int;
            let ni = n as int;
            let ti = target_rate as int;
            let si = source_rate as int;
            assert(ii * si < ni * ti) by (nonlinear_arith)
                requires
                    0 <= ii,
                    ii < ni * ti / si,
                    1 <= si,
                    0 <= ni * ti,
            ;
            assert(ii * si <= 0xFFFF_FFFF_FFFF_FFFF * 0xFFFF_FFFF) by (nonlinear_arith)
                requires
                    0 <= ii <= 0xFFFF_FFFF_FFFF_FFFF,
                    0 <= si <= 0xFFFF_FFFF,
            ;
            assert(ii * si / ti < ni) by (nonlinear_arith)
                requires
                    ii * si < ni * ti,
                    1 <= ti,
                    0 <= ii * si,
            ;
        }
        let idx_wide: u128 = (i as u128) * s128 / t128;
        let idx: usize = idx_wide as usize;
        out.push(signal[idx]);
        i += 1;
    }
    out
}

} // verus!
