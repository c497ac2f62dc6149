use audioprint::{
    decimate_signal, detect_peaks, frame_signal, hash_fingerprint, match_fingerprints,
    max_magnitude, validate_pipeline_input, FILTER_TAPS, FRAME_SIZE, HOP_SIZE, NUM_BANDS,
    TARGET_SAMPLE_RATE, TARGET_ZONE_FRAMES, THRESHOLD_PERMILLE,
};
use rustfft::num_complex::Complex;
use rustfft::FftPlanner;

fn normalize(samples: &Vec<i16>) -> Vec<f64> {
    let max_abs = max_magnitude(samples) as f64;
    samples
        .iter()
        .map(|&s| {
            if s == i16::MIN {
                -1.0
            } else {
                s as f64 / max_abs
            }
        })
        .collect()
}

fn low_pass_kernel(cutoff_freq: f64, sample_rate: u32, filter_length: usize) -> Vec<f64> {
    let mut kernel = vec![0.0; filter_length];
    let fc = cutoff_freq / sample_rate as f64;
    let m = (filter_length - 1) as f64;
    let half_m = m / 2.0;
    for i in 0..filter_length {
        let n = i as f64;
        if (n - half_m).abs() < 1e-9 {
            kernel[i] = 2.0 * fc;
        } else {
            kernel[i] =
                (2.0 * std::f64::consts::PI * fc * (n - half_m)).sin()
                    / (std::f64::consts::PI * (n - half_m));
        }
        kernel[i] *= 0.54 - 0.46 * (2.0 * std::f64::consts::PI * n / m).cos();
    }
    let sum: f64 = kernel.iter().sum();
    if sum != 0.0 {
        for i in 0..filter_length {
            kernel[i] /= sum;
        }
    }
    kernel
}

fn fir_filter(input: &[f64], kernel: &[f64]) -> Vec<f64> {
    let n = input.len();
    let k = kernel.len();
    let half = k / 2;
    let mut output = vec![0.0; n];
    for i in 0..n {
        let mut sum = 0.0;
        for j in 0..k {
            let index = i as isize - j as isize + half as isize;
            if index >= 0 && index < n as isize {
                sum += input[index as usize] * kernel[j];
            }
        }
        output[i] = sum;
    }
    output
}

fn hamming_window(n: usize) -> Vec<f64> {
    (0..n)
        .map(|i| 0.54 - 0.46 * (2.0 * std::f64::consts::PI * i as f64 / (n as f64 - 1.0)).cos())
        .collect()
}

fn magnitude_spectrum(frame: &[f64], window: &[f64]) -> Vec<f64> {
    let n = frame.len();
    let mut planner = FftPlanner::new();
    let fft = planner.plan_fft_forward(n);
    let mut buf: Vec<Complex<f64>> = frame
        .iter()
        .zip(window.iter())
        .map(|(&x, &w)| Complex::new(x * w, 0.0))
        .collect();
    fft.process(&mut buf);
    buf.iter().take(n / 2 + 1).map(|c| c.norm()).collect()
}

fn fixed_point(spectrogram: &[Vec<f64>]) -> Vec<Vec<u32>> {
    spectrogram
        .iter()
        .map(|frame| {
            frame
                .iter()
                .map(|&m| {
                    let scaled = m * 65536.0;
                    if scaled >= u32::MAX as f64 {
                        u32::MAX
                    } else {
                        scaled as u32
                    }
                })
                .collect()
        })
        .collect()
}

/// The full fingerprint pipeline, with its floating-point stages computed
/// here in the test.
fn fingerprint(samples: &Vec<i16>, sample_rate: u32) -> (Vec<u32>, usize, usize) {
    validate_pipeline_input(samples.len(), sample_rate).unwrap();
    let normalized = normalize(samples);
    let kernel = low_pass_kernel(TARGET_SAMPLE_RATE as f64 / 2.0, sample_rate, FILTER_TAPS);
    let filtered = fir_filter(&normalized, &kernel);
    let downsampled = decimate_signal(&filtered, sample_rate, TARGET_SAMPLE_RATE);
    let frames = frame_signal(&downsampled, FRAME_SIZE, HOP_SIZE);
    let window = hamming_window(FRAME_SIZE);
    let spectrogram: Vec<Vec<f64>> = frames
        .iter()
        .map(|f| magnitude_spectrum(f, &window))
        .collect();
    assert_eq!(spectrogram.len(), frames.len());
    for row in &spectrogram {
        assert_eq!(row.len(), FRAME_SIZE / 2 + 1);
        assert!(row.iter().all(|&m| m >= 0.0));
    }
    let scaled = fixed_point(&spectrogram);
    let peaks = detect_peaks(&scaled, NUM_BANDS, THRESHOLD_PERMILLE);
    let n_peaks = peaks.len();
    let hashes = hash_fingerprint(&peaks, TARGET_ZONE_FRAMES);
    (hashes, n_peaks, frames.len())
}

struct Lcg(u64);

impl Lcg {
    fn next(&mut self) -> u64 {
        self.0 = self
            .0
            .wrapping_mul(6364136223846793005)
            .wrapping_add(1442695040888963407);
        self.0 >> 33
    }
}

fn noise(len: usize, seed: u64) -> Vec<i16> {
    let mut rng = Lcg(seed);
    (0..len).map(|_| ((rng.next() % 40001) as i32 - 20000) as i16).collect()
}

#[test]
fn tone_fingerprint_is_bounded() {
    // One second of a test tone at the 11025 Hz target rate.
    let rate = 11025u32;
    let samples: Vec<i16> = (0..rate)
        .map(|i| {
            let t = i as f64 / rate as f64;
            (10000.0 * (2.0 * std::f64::consts::PI * 1000.0 * t).sin()) as i16
        })
        .collect();
    let (hashes, n_peaks, n_frames) = fingerprint(&samples, rate);
    assert_eq!(n_frames, (11025 - FRAME_SIZE) / HOP_SIZE + 1);
    assert!(!hashes.is_empty());
    // Every anchor pairs with at most NUM_BANDS peaks in each of the
    // TARGET_ZONE_FRAMES + 1 frames of its zone.
    assert!(hashes.len() <= n_peaks * NUM_BANDS * (TARGET_ZONE_FRAMES + 1));
}

#[test]
fn unrelated_noise_rejected() {
    for (seed1, seed2) in [(101, 202), (303, 404), (505, 606)] {
        let a = noise(3000, seed1);
        let b = noise(3000, seed2);
        let (fp_a, _, _) = fingerprint(&a, 11025);
        let (fp_b, _, _) = fingerprint(&b, 11025);
        assert!(!fp_a.is_empty() && !fp_b.is_empty());
        let confidence = match_fingerprints(&fp_a, &fp_b);
        assert!(confidence < 10, "confidence {} for seeds {} {}", confidence, seed1, seed2);
    }
}

#[test]
fn normalization_reaches_unit_magnitude() {
    let samples: Vec<i16> = vec![1200, -4000, 3999];
    let normalized = normalize(&samples);
    assert!(normalized.iter().all(|&x| (-1.0..=1.0).contains(&x)));
    assert_eq!(normalized[1], -1.0);

    let samples: Vec<i16> = vec![i16::MIN, 123, 32767];
    let normalized = normalize(&samples);
    assert!(normalized.iter().all(|&x| (-1.0..=1.0).contains(&x)));
    assert_eq!(normalized[0], -1.0);
}

#[test]
fn kernel_has_unit_gain_and_requested_length() {
    let kernel = low_pass_kernel(TARGET_SAMPLE_RATE as f64 / 2.0, 44100, FILTER_TAPS);
    assert_eq!(kernel.len(), FILTER_TAPS);
    let sum: f64 = kernel.iter().sum();
    assert!((sum - 1.0).abs() < 1e-9, "kernel sum {}", sum);

    let kernel = low_pass_kernel(4000.0, 48000, 31);
    assert_eq!(kernel.len(), 31);
    let sum: f64 = kernel.iter().sum();
    assert!((sum - 1.0).abs() < 1e-9, "kernel sum {}", sum);
}

#[test]
fn noise_fingerprint_matches_itself() {
    let samples = noise(3000, 909);
    let (fp, _, _) = fingerprint(&samples, 11025);
    assert!(!fp.is_empty());
    assert_eq!(match_fingerprints(&fp, &fp), 100);
}
