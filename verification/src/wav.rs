//! WAV container parsing over in-memory bytes.
//!
//! The parser walks a RIFF/WAVE layout: the RIFF tag, the WAVE identifier,
//! one 16-byte PCM "fmt " chunk, then a chunk scan to the "data" chunk,
//! whose payload is downmixed from interleaved stereo to mono.  The
//! surrounding application reads the file into bytes and hands them here.

use vstd::prelude::*;

use crate::samples::{downmix_stereo_to_mono, spec_mono_sample};

verus! {

/// Layout facts read from a WAV file's format chunk.
#[derive(Clone, Copy, Debug, PartialEq, Eq, Structural)]
pub struct WavHeader {
    /// Samples per second.
    pub sample_rate: u32,
    /// Interleaved channels per frame.
    pub num_channels: u16,
    /// Bits per single channel sample.
    pub bits_per_sample: u16,
    /// Byte length of the data chunk's payload.
    pub data_size: u32,
}

/// Why WAV bytes were rejected.
#[derive(Clone, Copy, Debug, PartialEq, Eq, Structural)]
pub enum WavError {
    /// The input ended before a read completed, as a streaming reader would
    /// report an unexpected end of file.
    IoError,
    /// A required tag is missing, or the data payload is not whole stereo
    /// 16-bit frames.
    InvalidFormat,
    /// The format chunk describes anything but plain 16-byte PCM.
    UnsupportedFormat,
}

/// The 16-bit unsigned value stored little-endian at byte `p`.
pub open spec fn spec_u16_at(b: Seq<u8>, p: int) -> int {
    b[p] + 256 * (b[p + 1] as int)
}

/// The 32-bit unsigned value stored little-endian at byte `p`.
pub open spec fn spec_u32_at(b: Seq<u8>, p: int) -> int {
    b[p] + 256 * (b[p + 1] as int) + 65536 * (b[p + 2] as int) + 16777216 * (b[p + 3] as int)
}

/// Whether the four bytes at `p` spell the given tag.
pub open spec fn spec_tag_at(b: Seq<u8>, p: int, t0: u8, t1: u8, t2: u8, t3: u8) -> bool {
    b[p] == t0 && b[p + 1] == t1 && b[p + 2] == t2 && b[p + 3] == t3
}

/// Position just after the "data" tag found by scanning chunks from `pos`,
/// skipping over every other chunk by its declared size.
pub open spec fn spec_find_data(b: Seq<u8>, pos: int) -> Result<int, WavError>
    decreases b.len() - pos,
{
    if pos + 4 > b.len() {
        Err(WavError::IoError)
    } else if spec_tag_at(b, pos, 100, 97, 116, 97) {
        Ok(pos + 4)
    } else if pos + 8 > b.len() {
        Err(WavError::IoError)
    } else if pos + 8 + spec_u32_at(b, pos + 4) > b.len() {
        Err(WavError::IoError)
    } else {
        spec_find_data(b, pos + 8 + spec_u32_at(b, pos + 4))
    }
}

/// The mono samples decoded from a data payload of interleaved stereo
/// frames.
pub open spec fn spec_downmix(d: Seq<u8>) -> Seq<i16> {
    Seq::new((d.len() / 4) as nat, |k: int| spec_mono_sample(d, k) as i16)
}

/// What parsing a WAV byte buffer yields: the header and the mono samples,
/// or the first applicable error in read order.
pub open spec fn spec_parse_wav(b: Seq<u8>) -> Result<(WavHeader, Seq<i16>), WavError> {
    if b.len() < 4 {
        Err(WavError::IoError)
    } else if !spec_tag_at(b, 0, 82, 73, 70, 70) {
        Err(WavError::InvalidFormat)
    } else if b.len() < 12 {
        Err(WavError::IoError)
    } else if !spec_tag_at(b, 8, 87, 65, 86, 69) {
        Err(WavError::InvalidFormat)
    } else if b.len() < 16 {
        Err(WavError::IoError)
    } else if !spec_tag_at(b, 12, 102, 109, 116, 32) {
        Err(WavError::InvalidFormat)
    } else if b.len() < 20 {
        Err(WavError::IoError)
    } else if spec_u32_at(b, 16) != 16 {
        Err(WavError::UnsupportedFormat)
    } else if b.len() < 22 {
        Err(WavError::IoError)
    } else if spec_u16_at(b, 20) != 1 {
        Err(WavError::UnsupportedFormat)
    } else if b.len() < 36 {
        Err(WavError::IoError)
    } else {
        match spec_find_data(b, 36) {
            Err(e) => Err(e),
            Ok(p) => {
                if p + 4 > b.len() {
                    Err(WavError::IoError)
                } else {
                    let dsz = spec_u32_at(b, p);
                    if p + 4 + dsz > b.len() {
                        Err(WavError::IoError)
                    } else if dsz % 4 != 0 {
                        Err(WavError::InvalidFormat)
                    } else {
                        Ok(
                            (
                                WavHeader {
                                    sample_rate: spec_u32_at(b, 24) as u32,
                                    num_channels: spec_u16_at(b, 22) as u16,
                                    bits_per_sample: spec_u16_at(b, 34) as u16,
                                    data_size: dsz as u32,
                                },
                                spec_downmix(b.subrange(p + 4, p + 4 + dsz)),
                            ),
                        )
                    }
                }
            },
        }
    }
}

/// Reads a little-endian 16-bit unsigned value.
fn u16_at(bytes: &Vec<u8>, p: usize) -> (r: u16)
    requires
        p + 2 <= bytes@.len(),
    ensures
        r as int == spec_u16_at(bytes@, p as int),
{
    let n = bytes.len();
    let b0 = bytes[p];
    let b1 = bytes[p + 1];
    let v: u16 = (b0 as u16) | ((b1 as u16) << 8u16);
    proof {
        assert(((b0 as u16) | ((b1 as u16) << 8u16)) == b0 + 256 * (b1 as u16)) by (bit_vector);
    }
    v
}

/// Reads a little-endian 32-bit unsigned value.
fn u32_at(bytes: &Vec<u8>, p: usize) -> (r: u32)
    requires
        p + 4 <= bytes@.len(),
    ensures
        r as int == spec_u32_at(bytes@, p as int),
{
    let n = bytes.len();
    let b0 = bytes[p];
    let b1 = bytes[p + 1];
    let b2 = bytes[p + 2];
    let b3 = bytes[p + 3];
    let v: u32 = (b0 as u32) | ((b1 as u32) << 8u32) | ((b2 as u32) << 16u32) | ((b3 as u32)
        << 24u32);
    proof {
        assert(((b0 as u32) | ((b1 as u32) << 8u32) | ((b2 as u32) << 16u32) | ((b3 as u32)
            << 24u32)) == b0 + 256 * (b1 as u32) + 65536 * (b2 as u32) + 16777216 * (b3 as u32))
            by (bit_vector);
    }
    v
}

/// Whether the four bytes at `p` spell the given tag.
fn tag_at(bytes: &Vec<u8>, p: usize, t0: u8, t1: u8, t2: u8, t3: u8) -> (r: bool)
    requires
        p + 4 <= bytes@.len(),
    ensures
        r == spec_tag_at(bytes@, p as int, t0, t1, t2, t3),
{
    let n = bytes.len();
    bytes[p] == t0 && bytes[p + 1] == t1 && bytes[p + 2] == t2 && bytes[p + 3] == t3
}

/// Scans chunks from byte 36 for the "data" chunk and returns the position
/// just after its tag.
fn find_data_chunk(bytes: &Vec<u8>) -> (r: Result<usize, WavError>)
    requires
        bytes@.len() >= 36,
    ensures
        ({
            let s = spec_find_data(bytes@, 36);
            match r {
                Ok(p) => s == Ok::<int, WavError>(p as int) && p <= bytes@.len(),
                Err(e) => s == Err::<int, WavError>(e),
            }
        }),
{
    let n = bytes.len();
    let mut pos: usize = 36;
    loop
        invariant
            n == bytes@.len(),
            n >= 36,
            spec_find_data(bytes@, 36) == spec_find_data(bytes@, pos as int),
        decreases n - pos,
    {
        if n < 4 || pos > n - 4 {
            return Err(WavError::IoError);
        }
        if tag_at(bytes, pos, 100, 97, 116, 97) {
            return Ok(pos + 4);
        }
        if pos > n - 8 {
            return Err(WavError::IoError);
        }
        let size = u32_at(bytes, pos + 4);
        let avail = n - (pos + 8);
        if size as usize > avail {
            return Err(WavError::IoError);
        }
        pos = pos + 8 + size as usize;
    }
}

/// Parses a WAV byte buffer into its header and mono samples.
///
/// The grammar, the error for every rejected input, and the exact samples
/// returned are stated by `spec_parse_wav`.  A data payload that is not
/// whole stereo frames is rejected as `InvalidFormat`.
pub fn parse_wav_bytes(bytes: &Vec<u8>) -> (r: Result<(WavHeader, Vec<i16>), WavError>)
    ensures
        ({
            let s = spec_parse_wav(bytes@);
            match r {
                Ok(hv) => s == Ok::<(WavHeader, Seq<i16>), WavError>((hv.0, hv.1@)),
                Err(e) => s == Err::<(WavHeader, Seq<i16>), WavError>(e),
            }
        }),
{
    let n = bytes.len();
    if n < 4 {
        return Err(WavError::IoError);
    }
    if !tag_at(bytes, 0, 82, 73, 70, 70) {
        return Err(WavError::InvalidFormat);
    }
    if n < 12 {
        return Err(WavError::IoError);
    }
    if !tag_at(bytes, 8, 87, 65, 86, 69) {
        return Err(WavError::InvalidFormat);
    }
    if n < 16 {
        return Err(WavError::IoError);
    }
    if !tag_at(bytes, 12, 102, 109, 116, 32) {
        return Err(WavError::InvalidFormat);
    }
    if n < 20 {
        return Err(WavError::IoError);
    }
    if u32_at(bytes, 16) != 16 {
        return Err(WavError::UnsupportedFormat);
    }
    if n < 22 {
        return Err(WavError::IoError);
    }
    if u16_at(bytes, 20) != 1 {
        return Err(WavError::UnsupportedFormat);
    }
    if n < 36 {
        return Err(WavError::IoError);
    }
    let num_channels = u16_at(bytes, 22);
    let sample_rate = u32_at(bytes, 24);
    let bits_per_sample = u16_at(bytes, 34);
    let p = match find_data_chunk(bytes) {
        Ok(p) => p,
        Err(e) => {
            return Err(e);
        },
    };
    if n - p < 4 {
        return Err(WavError::IoError);
    }
    let data_size = u32_at(bytes, p);
    if (data_size as usize) > n - (p + 4) {
        return Err(WavError::IoError);
    }
    if data_size % 4 != 0 {
        return Err(WavError::InvalidFormat);
    }
    let data_start = p + 4;
    let data_len = data_size as usize;
    let mut data: Vec<u8> = Vec::new();
    let mut k: usize = 0;
    while k < data_len
        invariant
            k <= data_len,
            n == bytes@.len(),
            data_start + data_len <= n,
            data@ == bytes@.subrange(data_start as int, data_start as int + k as int),
        decreases data_len - k,
    {
        data.push(bytes[data_start + k]);
        assert(data@ =~= bytes@.subrange(data_start as int, data_start as int + k as int + 1));
        k += 1;
    }
    let ghost dv = data@;
    proof {
        assert(dv.len() % 4 == 0);
    }
    let mono = downmix_stereo_to_mono(data);
    let header = WavHeader { sample_rate, num_channels, bits_per_sample, data_size };
    proof {
        let d = bytes@.subrange(data_start as int, data_start as int + data_len as int);
        assert(dv == d);
        assert forall|t: int| 0 <= t < mono@.len() implies mono@[t] == spec_downmix(d)[t] by {
            assert(mono@[t] as int == spec_mono_sample(d, t));
        }
        assert(mono@ =~= spec_downmix(d));
    }
    Ok((header, mono))
}

} // verus!
