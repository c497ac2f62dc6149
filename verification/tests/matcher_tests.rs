use audioprint::matcher::hashes_correspond;
use audioprint::{encode_hash, locate_alignment, match_fingerprints};

struct Lcg(u64);

impl Lcg {
    fn next(&mut self) -> u64 {
        self.0 = self
            .0
            .wrapping_mul(6364136223846793005)
            .wrapping_add(1442695040888963407);
        self.0 >> 33
    }
}

fn synthetic_fingerprint(n: usize, seed: u64) -> Vec<u32> {
    let mut rng = Lcg(seed);
    (0..n)
        .map(|_| {
            let f1 = (rng.next() % 512) as u32;
            let f2 = (rng.next() % 512) as u32;
            let dt = (rng.next() % 0x4000) as u32;
            encode_hash(f1, f2, dt)
        })
        .collect()
}

#[test]
fn correspondence_tolerances() {
    // Identical hashes always correspond.
    let h = encode_hash(123, 456, 789);
    assert!(hashes_correspond(h, h));
    // Frequency ratio 102/100 sits exactly on the upper bound.
    assert!(hashes_correspond(encode_hash(102, 100, 0), encode_hash(100, 100, 0)));
    assert!(!hashes_correspond(encode_hash(103, 100, 0), encode_hash(100, 100, 0)));
    // Delta 50 vs 49 is within one fiftieth; 49 vs 48 is not.
    assert!(hashes_correspond(encode_hash(10, 10, 50), encode_hash(10, 10, 49)));
    assert!(!hashes_correspond(encode_hash(10, 10, 49), encode_hash(10, 10, 48)));
}

#[test]
fn self_match_yields_full_confidence() {
    let fp = synthetic_fingerprint(300, 7);
    assert_eq!(match_fingerprints(&fp, &fp), 100);
}

#[test]
fn single_hash_self_match() {
    let fp = vec![encode_hash(42, 43, 44)];
    assert_eq!(match_fingerprints(&fp, &fp), 100);
}

#[test]
fn empty_fingerprints_do_not_match() {
    assert_eq!(match_fingerprints(&Vec::new(), &Vec::new()), 0);
    let fp = synthetic_fingerprint(50, 1);
    assert_eq!(match_fingerprints(&fp, &Vec::new()), 0);
    assert_eq!(match_fingerprints(&Vec::new(), &fp), 0);
}

#[test]
fn disjoint_frequency_ranges_do_not_match() {
    let mut rng = Lcg(11);
    let fp1: Vec<u32> = (0..200)
        .map(|_| encode_hash((rng.next() % 90) as u32, (rng.next() % 90) as u32, 100))
        .collect();
    // Bins 300..500 are never within ratio tolerance of bins below 90.
    let fp2: Vec<u32> = (0..200)
        .map(|_| {
            encode_hash(
                300 + (rng.next() % 200) as u32,
                300 + (rng.next() % 200) as u32,
                100,
            )
        })
        .collect();
    assert_eq!(match_fingerprints(&fp1, &fp2), 0);
}

#[test]
fn alignment_recovers_slice_offset() {
    let reference = synthetic_fingerprint(300, 21);
    let query: Vec<u32> = reference[80..240].to_vec();
    let result = locate_alignment(&query, &reference);
    // 160 query hashes form 40 complete windows, all matching at offset 80.
    assert_eq!(result, Some((80, 40)));
}

#[test]
fn alignment_rejects_unrelated_sequences() {
    let query = synthetic_fingerprint(100, 31);
    let reference = synthetic_fingerprint(300, 32);
    assert_eq!(locate_alignment(&query, &reference), None);
}

#[test]
fn alignment_needs_a_minimum_run() {
    // 20 hashes form only 5 windows, below the minimum run of 15.
    let fp = synthetic_fingerprint(20, 41);
    assert_eq!(locate_alignment(&fp, &fp), None);
}
