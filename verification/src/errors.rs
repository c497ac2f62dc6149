//! Typed failures of the sample-validation and pipeline entry points.

use vstd::prelude::*;

verus! {

/// Why a sample buffer was rejected.
#[derive(Clone, Copy, Debug, PartialEq, Eq, Structural)]
pub enum AudioError {
    /// The sample sequence is empty.
    NoSamples,
    /// The sample rate is not one of the standard source rates.
    UnusualSampleRate,
    /// Consecutive samples vary implausibly for mono content, which points
    /// at incorrect channel mixing.
    HighSampleVariation,
    /// The sample rate lies below the pipeline's minimum operating rate.
    SampleRateTooLow,
    /// The anti-alias filter was configured with an even tap count; a
    /// windowed-sinc kernel needs a centre tap.
    EvenFilterTaps,
}

} // verus!
