//! Tunable pipeline parameters and the pipeline's input check.

use vstd::prelude::*;

use crate::errors::AudioError;

verus! {

/// Sample rate the resampler decimates to; also the pipeline's minimum
/// operating rate.  Lower values reduce spectral resolution and cost.
pub const TARGET_SAMPLE_RATE: u32 = 11025;

/// Length of the anti-alias FIR kernel; odd.  Larger values sharpen the
/// cutoff at higher convolution cost.
pub const FILTER_TAPS: usize = 101;

/// Samples per analysis frame: the time/frequency resolution trade-off.
pub const FRAME_SIZE: usize = 1024;

/// Samples between frame starts; the overlap affects peak density and hash
/// count.
pub const HOP_SIZE: usize = 512;

/// Number of frequency bands peak selection splits a spectrum into.
pub const NUM_BANDS: usize = 6;

/// Peak sensitivity in thousandths: a band's threshold is its mean magnitude
/// times this value over one thousand.
pub const THRESHOLD_PERMILLE: u32 = 100;

/// Width of the hash fan-out window in frames: an anchor peak pairs with
/// every peak at most this many frames after it.
pub const TARGET_ZONE_FRAMES: usize = 20;

/// Admits a sample buffer into the pipeline: it must be non-empty and
/// sampled at no less than the target rate.
pub fn validate_pipeline_input(num_samples: usize, sample_rate: u32) -> (r: Result<(), AudioError>)
    ensures
        r == Ok::<(), AudioError>(()) <==> (num_samples >= 1 && sample_rate
            >= TARGET_SAMPLE_RATE),
        r == Err::<(), AudioError>(AudioError::NoSamples) <==> num_samples == 0,
        r == Err::<(), AudioError>(AudioError::SampleRateTooLow) <==> (num_samples >= 1
            && sample_rate < TARGET_SAMPLE_RATE),
{
    if num_samples == 0 {
        Err(AudioError::NoSamples)
    } else if sample_rate < TARGET_SAMPLE_RATE {
        Err(AudioError::SampleRateTooLow)
    } else {
        Ok(())
    }
}

/// Admits a filter configuration: a windowed-sinc kernel must have an odd
/// number of taps, at least one.
pub fn validate_filter_taps(taps: usize) -> (r: Result<(), AudioError>)
    ensures
        r == Ok::<(), AudioError>(()) <==> taps % 2 == 1,
        r == Err::<(), AudioError>(AudioError::EvenFilterTaps) <==> taps % 2 == 0,
{
    if taps % 2 == 1 {
        Ok(())
    } else {
        Err(AudioError::EvenFilterTaps)
    }
}

} // verus!
