//! Content-based audio identification primitives.
//!
//! The crate turns a mono pulse-code audio stream into a compact sequence of
//! 32-bit locality-sensitive hash codes (a fingerprint) and compares two such
//! sequences for overlapping content.  Everything that decides or computes on
//! plain integer data is verified here: WAV byte parsing, channel downmixing,
//! input validation, framing, decimation, per-band peak selection over
//! fixed-point magnitudes, combinatorial hash encoding, and the fuzzy
//! hash-sequence matcher and alignment search.  The floating-point signal
//! stages (normalization, FIR filtering, the Fourier transform) live with the
//! surrounding application, which hands their results back to this crate as
//! plain values.

pub mod align;
pub mod errors;
pub mod framing;
pub mod hash;
pub mod matcher;
pub mod params;
pub mod peaks;
pub mod samples;
pub mod wav;

pub use align::locate_alignment;
pub use framing::{decimate_signal, frame_signal};
pub use hash::{decode_hash, encode_hash, hash_fingerprint};
pub use matcher::match_fingerprints;
pub use errors::AudioError;
pub use params::{
    validate_filter_taps, validate_pipeline_input, FILTER_TAPS, FRAME_SIZE, HOP_SIZE, NUM_BANDS,
    TARGET_SAMPLE_RATE, TARGET_ZONE_FRAMES, THRESHOLD_PERMILLE,
};
pub use peaks::{detect_peaks, Peak};
pub use samples::{
    calculate_audio_stats, downmix_interleaved, downmix_stereo_to_mono, max_magnitude, safe_abs,
    validate_audio_format, AudioStats,
};
pub use wav::{parse_wav_bytes, WavError, WavHeader};
