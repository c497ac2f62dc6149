use audioprint::{parse_wav_bytes, WavError};

fn push_u16(v: &mut Vec<u8>, x: u16) {
    v.extend_from_slice(&x.to_le_bytes());
}

fn push_u32(v: &mut Vec<u8>, x: u32) {
    v.extend_from_slice(&x.to_le_bytes());
}

fn build_wav(sample_rate: u32, extra_chunk: bool, data: &[u8]) -> Vec<u8> {
    let mut v = Vec::new();
    v.extend_from_slice(b"RIFF");
    push_u32(&mut v, 0); // overall size; the parser skips it
    v.extend_from_slice(b"WAVE");
    v.extend_from_slice(b"fmt ");
    push_u32(&mut v, 16);
    push_u16(&mut v, 1); // PCM
    push_u16(&mut v, 2); // stereo
    push_u32(&mut v, sample_rate);
    push_u32(&mut v, sample_rate * 4); // byte rate
    push_u16(&mut v, 4); // block align
    push_u16(&mut v, 16); // bits per sample
    if extra_chunk {
        v.extend_from_slice(b"LIST");
        push_u32(&mut v, 6);
        v.extend_from_slice(&[1, 2, 3, 4, 5, 6]);
    }
    v.extend_from_slice(b"data");
    push_u32(&mut v, data.len() as u32);
    v.extend_from_slice(data);
    v
}

#[test]
fn parses_header_and_downmixes_data() {
    // Stereo frames (100, 200) and (-40, -60).
    let data = vec![100, 0, 200, 0, 216, 255, 196, 255];
    let bytes = build_wav(44100, false, &data);
    let (header, samples) = parse_wav_bytes(&bytes).unwrap();
    assert_eq!(header.sample_rate, 44100);
    assert_eq!(header.num_channels, 2);
    assert_eq!(header.bits_per_sample, 16);
    assert_eq!(header.data_size, 8);
    assert_eq!(samples, vec![150, -50]);
}

#[test]
fn skips_unknown_chunks_before_data() {
    let data = vec![100, 0, 200, 0];
    let bytes = build_wav(48000, true, &data);
    let (header, samples) = parse_wav_bytes(&bytes).unwrap();
    assert_eq!(header.sample_rate, 48000);
    assert_eq!(samples, vec![150]);
}

#[test]
fn rejects_non_riff_input() {
    let mut bytes = build_wav(44100, false, &[0, 0, 0, 0]);
    bytes[0] = b'X';
    assert_eq!(parse_wav_bytes(&bytes), Err(WavError::InvalidFormat));
}

#[test]
fn rejects_non_wave_identifier() {
    let mut bytes = build_wav(44100, false, &[0, 0, 0, 0]);
    bytes[8] = b'A';
    assert_eq!(parse_wav_bytes(&bytes), Err(WavError::InvalidFormat));
}

#[test]
fn rejects_truncated_input() {
    let bytes = build_wav(44100, false, &[100, 0, 200, 0]);
    assert_eq!(
        parse_wav_bytes(&bytes[..3].to_vec()),
        Err(WavError::IoError)
    );
    assert_eq!(
        parse_wav_bytes(&bytes[..20].to_vec()),
        Err(WavError::IoError)
    );
    // Data chunk announcing more bytes than remain.
    assert_eq!(
        parse_wav_bytes(&bytes[..bytes.len() - 1].to_vec()),
        Err(WavError::IoError)
    );
}

#[test]
fn rejects_non_pcm_format_chunk() {
    let mut bytes = build_wav(44100, false, &[0, 0, 0, 0]);
    bytes[16] = 18; // fmt chunk size other than 16
    assert_eq!(parse_wav_bytes(&bytes), Err(WavError::UnsupportedFormat));

    let mut bytes = build_wav(44100, false, &[0, 0, 0, 0]);
    bytes[20] = 3; // format tag other than PCM
    assert_eq!(parse_wav_bytes(&bytes), Err(WavError::UnsupportedFormat));
}

#[test]
fn rejects_partial_stereo_frames() {
    // A data payload of 6 bytes is not whole 4-byte stereo frames.
    let bytes = build_wav(44100, false, &[1, 2, 3, 4, 5, 6]);
    assert_eq!(parse_wav_bytes(&bytes), Err(WavError::InvalidFormat));
}

#[test]
fn missing_data_chunk_is_reported_as_truncation() {
    let mut bytes = build_wav(44100, false, &[]);
    // Rename the data tag so the chunk scan runs off the end.
    bytes[36] = b'x';
    assert_eq!(parse_wav_bytes(&bytes), Err(WavError::IoError));
}

#[test]
fn empty_data_chunk_yields_no_samples() {
    let bytes = build_wav(96000, false, &[]);
    let (header, samples) = parse_wav_bytes(&bytes).unwrap();
    assert_eq!(header.data_size, 0);
    assert!(samples.is_empty());
}
