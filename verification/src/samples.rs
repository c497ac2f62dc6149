//! Sample-level utilities: magnitudes, validation, statistics and channel
//! downmixing.
//!
//! All arithmetic is exact integer arithmetic; an average is kept as its sum
//! and count rather than a rounded quotient, and a mean comparison is
//! cross-multiplied.

use vstd::prelude::*;

use crate::errors::AudioError;

verus! {

/// Magnitude of a 16-bit sample, with the two's-complement minimum mapped to
/// its true magnitude 32768 (naive absolute value would overflow there).
pub open spec fn spec_safe_abs(x: i16) -> int {
    if x == -32768 {
        32768
    } else if x < 0 {
        -(x as int)
    } else {
        x as int
    }
}

/// Computes a sample's magnitude, treating the two's-complement minimum as
/// 32768.
pub fn safe_abs(x: i16) -> (r: u16)
    ensures
        r as int == spec_safe_abs(x),
{
    if x == i16::MIN {
        32768
    } else if x < 0 {
        (-x) as u16
    } else {
        x as u16
    }
}

/// Largest magnitude among the first `m` samples (zero when none).
pub open spec fn spec_max_abs_upto(s: Seq<i16>, m: int) -> int
    decreases m,
{
    if m <= 0 {
        0
    } else {
        let p = spec_max_abs_upto(s, m - 1);
        let v = spec_safe_abs(s[m - 1]);
        if v > p {
            v
        } else {
            p
        }
    }
}

/// The normalization divisor: the largest sample magnitude, or one for an
/// empty buffer.
pub open spec fn spec_max_magnitude(s: Seq<i16>) -> int {
    if s.len() == 0 {
        1
    } else {
        spec_max_abs_upto(s, s.len() as int)
    }
}

/// Every sample's magnitude is bounded by the running maximum.
proof fn lemma_max_abs_upto_bounds(s: Seq<i16>, m: int)
    requires
        0 <= m <= s.len(),
    ensures
        forall|k: int| 0 <= k < m ==> spec_safe_abs(#[trigger] s[k]) <= spec_max_abs_upto(s, m),
        spec_max_abs_upto(s, m) >= 0,
    decreases m,
{
    if m > 0 {
        lemma_max_abs_upto_bounds(s, m - 1);
    }
}

/// A non-empty buffer attains its maximum magnitude.
pub proof fn lemma_max_magnitude_attained(s: Seq<i16>)
    ensures
        forall|k: int|
            0 <= k < s.len() ==> spec_safe_abs(#[trigger] s[k]) <= spec_max_magnitude(s),
        s.len() > 0 ==> exists|k: int|
            0 <= k < s.len() && spec_safe_abs(#[trigger] s[k]) == spec_max_magnitude(s),
{
    lemma_max_abs_upto_bounds(s, s.len() as int);
    lemma_max_abs_attained(s, s.len() as int);
}

/// The running maximum is attained by some sample already scanned.
proof fn lemma_max_abs_attained(s: Seq<i16>, m: int)
    requires
        0 <= m <= s.len(),
    ensures
        m > 0 ==> exists|k: int|
            0 <= k < m && spec_safe_abs(#[trigger] s[k]) == spec_max_abs_upto(s, m),
    decreases m,
{
    if m > 0 {
        lemma_max_abs_attained(s, m - 1);
        let p = spec_max_abs_upto(s, m - 1);
        let v = spec_safe_abs(s[m - 1]);
        if v > p {
            assert(spec_safe_abs(s[m - 1]) == spec_max_abs_upto(s, m));
        }
    }
}

/// Computes the normalization divisor: the largest sample magnitude, or one
/// for an empty buffer.
pub fn max_magnitude(samples: &Vec<i16>) -> (m: u16)
    ensures
        m as int == spec_max_magnitude(samples@),
{
    let n = samples.len();
    if n == 0 {
        return 1;
    }
    let mut cur: u16 = 0;
    let mut i: usize = 0;
    while i < n
        invariant
            i <= n,
            n == samples@.len(),
            n >= 1,
            cur as int == spec_max_abs_upto(samples@, i as int),
        decreases n - i,
    {
        let v = safe_abs(samples[i]);
        if v > cur {
            cur = v;
        }
        i += 1;
    }
    cur
}

/// Sum of the magnitude differences of the first `m - 1` consecutive sample
/// pairs.
pub open spec fn spec_variation_upto(s: Seq<i16>, m: int) -> int
    decreases m,
{
    if m <= 1 {
        0
    } else {
        let a = spec_safe_abs(s[m - 2]);
        let b = spec_safe_abs(s[m - 1]);
        spec_variation_upto(s, m - 1) + (if b >= a {
            b - a
        } else {
            a - b
        })
    }
}

/// Total magnitude variation between consecutive samples.
pub open spec fn spec_variation_sum(s: Seq<i16>) -> int {
    spec_variation_upto(s, s.len() as int)
}

/// A standard source sample rate.
pub open spec fn spec_standard_rate(rate: u32) -> bool {
    rate == 44100 || rate == 48000 || rate == 96000
}

/// Implausibly high variation between consecutive samples: the mean
/// magnitude difference exceeds 10000, stated exactly as sum over count.
pub open spec fn spec_high_variation(s: Seq<i16>) -> bool {
    s.len() >= 2 && spec_variation_sum(s) > 10000 * (s.len() - 1)
}

/// Validates that a buffer is usable mono 16-bit audio: non-empty, at a
/// standard source rate, without the excessive sample-to-sample variation
/// that points at incorrect channel mixing.  Each failure is reported as the
/// first applicable error, in that order.
pub fn validate_audio_format(samples: &Vec<i16>, sample_rate: u32) -> (r: Result<(), AudioError>)
    ensures
        r == Ok::<(), AudioError>(()) <==> (samples@.len() >= 1 && spec_standard_rate(sample_rate)
            && !spec_high_variation(samples@)),
        r == Err::<(), AudioError>(AudioError::NoSamples) <==> samples@.len() == 0,
        r == Err::<(), AudioError>(AudioError::UnusualSampleRate) <==> (samples@.len() >= 1
            && !spec_standard_rate(sample_rate)),
        r == Err::<(), AudioError>(AudioError::HighSampleVariation) <==> (samples@.len() >= 1
            && spec_standard_rate(sample_rate) && spec_high_variation(samples@)),
{
    let n = samples.len();
    if n == 0 {
        return Err(AudioError::NoSamples);
    }
    if !(sample_rate == 44100 || sample_rate == 48000 || sample_rate == 96000) {
        return Err(AudioError::UnusualSampleRate);
    }
    if n < 2 {
        return Ok(());
    }
    let mut sum: u128 = 0;
    let mut i: usize = 1;
    while i < n
        invariant
            1 <= i <= n,
            n == samples@.len(),
            sum as int == spec_variation_upto(samples@, i as int),
            sum <= 0x8000u128 * (i as u128 - 1),
        decreases n - i,
    {
        let a = safe_abs(samples[i - 1]);
        let b = safe_abs(samples[i]);
        let d: u16 = if b >= a {
            b - a
        } else {
            a - b
        };
        assert(0x8000u128 * (i as u128) == 0x8000u128 * (i as u128 - 1) + 0x8000)
            by (nonlinear_arith);
        sum = sum + d as u128;
        i += 1;
    }
    if sum > 10000u128 * ((n - 1) as u128) {
        Err(AudioError::HighSampleVariation)
    } else {
        Ok(())
    }
}

/// Summary statistics of a sample buffer.  The mean amplitude is kept as its
/// exact sum (over the buffer's length); the zero-crossing rate is kept as
/// the exact crossing count.
#[derive(Clone, Copy, Debug, PartialEq, Eq, Structural)]
pub struct AudioStats {
    /// Smallest sample value (the type maximum for an empty buffer).
    pub min: i16,
    /// Largest sample value (the type minimum for an empty buffer).
    pub max: i16,
    /// Sum of all sample magnitudes.
    pub amplitude_sum: u128,
    /// Number of consecutive pairs whose signs differ.
    pub zero_crossings: usize,
}

/// Smallest value among the first `m` samples.
pub open spec fn spec_min_upto(s: Seq<i16>, m: int) -> int
    decreases m,
{
    if m <= 0 {
        32767
    } else {
        let p = spec_min_upto(s, m - 1);
        if s[m - 1] < p {
            s[m - 1] as int
        } else {
            p
        }
    }
}

/// Largest value among the first `m` samples.
pub open spec fn spec_max_upto(s: Seq<i16>, m: int) -> int
    decreases m,
{
    if m <= 0 {
        -32768
    } else {
        let p = spec_max_upto(s, m - 1);
        if s[m - 1] > p {
            s[m - 1] as int
        } else {
            p
        }
    }
}

/// Sum of the magnitudes of the first `m` samples.
pub open spec fn spec_amplitude_upto(s: Seq<i16>, m: int) -> int
    decreases m,
{
    if m <= 0 {
        0
    } else {
        spec_amplitude_upto(s, m - 1) + spec_safe_abs(s[m - 1])
    }
}

/// Sign of a sample: one, minus one, or zero.
pub open spec fn spec_signum(x: i16) -> int {
    if x > 0 {
        1
    } else if x < 0 {
        -1
    } else {
        0
    }
}

/// Number of sign changes among the first `m - 1` consecutive pairs.
pub open spec fn spec_crossings_upto(s: Seq<i16>, m: int) -> nat
    decreases m,
{
    if m <= 1 {
        0
    } else {
        spec_crossings_upto(s, m - 1) + (if spec_signum(s[m - 2]) != spec_signum(s[m - 1]) {
            1nat
        } else {
            0nat
        })
    }
}

/// Computes the summary statistics of a buffer in one pass.
pub fn calculate_audio_stats(samples: &Vec<i16>) -> (stats: AudioStats)
    ensures
        stats.min as int == spec_min_upto(samples@, samples@.len() as int),
        stats.max as int == spec_max_upto(samples@, samples@.len() as int),
        stats.amplitude_sum as int == spec_amplitude_upto(samples@, samples@.len() as int),
        stats.zero_crossings as nat == spec_crossings_upto(samples@, samples@.len() as int),
{
    let n = samples.len();
    let mut min: i16 = i16::MAX;
    let mut max: i16 = i16::MIN;
    let mut amplitude_sum: u128 = 0;
    let mut zero_crossings: usize = 0;
    let mut i: usize = 0;
    while i < n
        invariant
            i <= n,
            n == samples@.len(),
            min as int == spec_min_upto(samples@, i as int),
            max as int == spec_max_upto(samples@, i as int),
            amplitude_sum as int == spec_amplitude_upto(samples@, i as int),
            amplitude_sum <= 0x8000u128 * (i as u128),
            zero_crossings as nat == spec_crossings_upto(samples@, i as int),
            zero_crossings <= i,
        decreases n - i,
    {
        let x = samples[i];
        if x < min {
            min = x;
        }
        if x > max {
            max = x;
        }
        assert(0x8000u128 * (i as u128 + 1) == 0x8000u128 * (i as u128) + 0x8000)
            by (nonlinear_arith);
        amplitude_sum = amplitude_sum + safe_abs(x) as u128;
        if i >= 1 {
            let prev = samples[i - 1];
            let sign_prev: i32 = if prev > 0 {
                1
            } else if prev < 0 {
                -1
            } else {
                0
            };
            let sign_cur: i32 = if x > 0 {
                1
            } else if x < 0 {
                -1
            } else {
                0
            };
            if sign_prev != sign_cur {
                zero_crossings += 1;
            }
        }
        i += 1;
    }
    AudioStats { min, max, amplitude_sum, zero_crossings }
}

/// Truncating division: the quotient rounded toward zero, as machine signed
/// division computes it.
pub open spec fn spec_div_trunc(a: int, b: int) -> int {
    if a >= 0 {
        a / b
    } else {
        -((-a) / b)
    }
}

/// The 16-bit signed value stored little-endian in two bytes.
pub open spec fn spec_i16_le(b0: u8, b1: u8) -> int {
    let v = b0 + 256 * (b1 as int);
    if v < 32768 {
        v
    } else {
        v - 65536
    }
}

/// Reads a little-endian 16-bit signed value from two bytes.
pub fn i16_from_le(b0: u8, b1: u8) -> (r: i16)
    ensures
        r as int == spec_i16_le(b0, b1),
{
    let v: u16 = (b0 as u16) | ((b1 as u16) << 8u16);
    proof {
        assert(((b0 as u16) | ((b1 as u16) << 8u16)) == b0 + 256 * (b1 as u16)) by (bit_vector);
        assert(v as i16 as int == (if (b0 + 256 * (b1 as int)) < 32768 {
            b0 + 256 * (b1 as int)
        } else {
            b0 + 256 * (b1 as int) - 65536
        })) by (bit_vector)
            requires
                v == b0 + 256 * (b1 as u16),
        ;
    }
    v as i16
}

/// The mono sample for stereo pair `k`: the truncated average of the left
/// and right 16-bit samples stored at bytes `4k .. 4k+4`.
pub open spec fn spec_mono_sample(d: Seq<u8>, k: int) -> int {
    spec_div_trunc(spec_i16_le(d[4 * k], d[4 * k + 1]) + spec_i16_le(d[4 * k + 2], d[4 * k + 3]), 2)
}

/// Averages interleaved little-endian stereo 16-bit frames into mono
/// samples, rounding toward zero.
pub fn downmix_stereo_to_mono(stereo_buffer: Vec<u8>) -> (mono: Vec<i16>)
    requires
        stereo_buffer@.len() % 4 == 0,
    ensures
        mono@.len() == stereo_buffer@.len() / 4,
        forall|k: int|
            0 <= k < mono@.len() ==> #[trigger] mono@[k] as int == spec_mono_sample(
                stereo_buffer@,
                k,
            ),
{
    let n = stereo_buffer.len();
    let frames = n / 4;
    let mut mono: Vec<i16> = Vec::new();
    let mut k: usize = 0;
    while k < frames
        invariant
            k <= frames,
            n == stereo_buffer@.len(),
            frames == n / 4,
            n % 4 == 0,
            mono@.len() == k as int,
            forall|t: int|
                0 <= t < k as int ==> #[trigger] mono@[t] as int == spec_mono_sample(
                    stereo_buffer@,
                    t,
                ),
        decreases frames - k,
    {
        proof {
            vstd::arithmetic::div_mod::lemma_fundamental_div_mod(n as int, 4);
        }
        let left = i16_from_le(stereo_buffer[4 * k], stereo_buffer[4 * k + 1]);
        let right = i16_from_le(stereo_buffer[4 * k + 2], stereo_buffer[4 * k + 3]);
        let s: i32 = left as i32 + right as i32;
        let avg: i32 = if s >= 0 {
            ((s as u32) / 2) as i32
        } else {
            -((((-s) as u32) / 2) as i32)
        };
        mono.push(avg as i16);
        k += 1;
    }
    mono
}

/// Sum of the first `j` channel samples of frame `i` in an interleaved
/// buffer with `ch` channels.
pub open spec fn spec_channel_sum_upto(s: Seq<i16>, ch: int, i: int, j: int) -> int
    decreases j,
{
    if j <= 0 {
        0
    } else {
        spec_channel_sum_upto(s, ch, i, j - 1) + s[i * ch + (j - 1)]
    }
}

/// The mono sample for frame `i`: the truncated average of its channel
/// samples.
pub open spec fn spec_mono_of_frame(s: Seq<i16>, ch: int, i: int) -> int {
    spec_div_trunc(spec_channel_sum_upto(s, ch, i, ch), ch)
}

/// Averages interleaved multi-channel 16-bit frames into mono samples,
/// rounding toward zero; a trailing partial frame is dropped.
pub fn downmix_interleaved(samples: &Vec<i16>, channels: u16) -> (mono: Vec<i16>)
    requires
        channels >= 1,
    ensures
        mono@.len() == samples@.len() as int / channels as int,
        forall|i: int|
            0 <= i < mono@.len() ==> #[trigger] mono@[i] as int == spec_mono_of_frame(
                samples@,
                channels as int,
                i,
            ),
{
    let n = samples.len();
    let ch = channels as usize;
    let frames = n / ch;
    let mut mono: Vec<i16> = Vec::new();
    let mut i: usize = 0;
    while i < frames
        invariant
            i <= frames,
            n == samples@.len(),
            1 <= ch <= 65535,
            ch == channels as int,
            frames == n / ch,
            mono@.len() == i as int,
            forall|t: int|
                0 <= t < i as int ==> #[trigger] mono@[t] as int == spec_mono_of_frame(
                    samples@,
                    ch as int,
                    t,
                ),
        decreases frames - i,
    {
        proof {
            vstd::arithmetic::div_mod::lemma_fundamental_div_mod(n as int, ch as int);
            assert((i as int + 1) * (ch as int) <= (frames as int) * (ch as int)
                && (i as int + 1) * (ch as int) == (i as int) * (ch as int) + ch as int
                && (frames as int) * (ch as int) <= n as int) by (nonlinear_arith)
                requires
                    i as int + 1 <= frames as int,
                    1 <= ch as int,
                    (n as int / ch as int) * (ch as int) <= n as int,
                    frames == n as int / ch as int,
            ;
        }
        let base = i * ch;
        let mut sum: i32 = 0;
        let mut j: usize = 0;
        while j < ch
            invariant
                j <= ch,
                1 <= ch <= 65535,
                n == samples@.len(),
                base == (i as int) * (ch as int),
                base + ch <= n,
                sum as int == spec_channel_sum_upto(samples@, ch as int, i as int, j as int),
                -32768 * (j as int) <= sum as int <= 32767 * (j as int),
            decreases ch - j,
        {
            sum = sum + samples[base + j] as i32;
            j += 1;
        }
        let avg: i32 = if sum >= 0 {
            ((sum as u32) / (ch as u32)) as i32
        } else {
            -((((-sum) as u32) / (ch as u32)) as i32)
        };
        proof {
            let su = sum as int;
            let chi = ch as int;
            if su >= 0 {
                assert(su / chi <= 32767) by (nonlinear_arith)
                    requires
                        0 <= su <= 32767 * chi,
                        1 <= chi,
                ;
            } else {
                assert((-su) / chi <= 32768) by (nonlinear_arith)
                    requires
                        0 <= -su <= 32768 * chi,
                        1 <= chi,
                ;
            }
        }
        mono.push(avg as i16);
        i += 1;
    }
    mono
}

} // verus!
