//! Fuzzy comparison of two fingerprints.
//!
//! Two hash codes correspond when both frequency fields agree within a
//! relative-ratio tolerance and the frame deltas agree within a proportional
//! tolerance.  Every corresponding pair of positions yields a candidate match
//! carrying its position offset; the offsets are clustered, and the largest
//! cluster is weighed against a length-adaptive minimum derived from the
//! integer square root of the shorter fingerprint.  The reference scan for
//! each query hash is restricted to a sliding window around the query
//! position to bound cost on long sequences.

use vstd::prelude::*;

use crate::hash::{decode_hash, lemma_decode_bounds, spec_hash_dt, spec_hash_f1, spec_hash_f2};

verus! {

/// Half-width of the sliding window of reference positions scanned for each
/// query position.
pub const MATCH_WINDOW: usize = 200;

/// Two cluster members may differ by at most this offset distance.
pub const OFFSET_TOLERANCE: i128 = 1;

/// A query frequency field `a` is within relative-ratio tolerance of a
/// reference field `b` when a/b lies in [49/50, 51/50].
pub open spec fn spec_freq_within_tolerance(a: int, b: int) -> bool {
    49 * b <= 50 * a <= 51 * b
}

/// Two frame deltas agree when they differ by at most one fiftieth of the
/// larger delta.
pub open spec fn spec_delta_within_tolerance(a: int, b: int) -> bool {
    if a >= b {
        50 * (a - b) <= a
    } else {
        50 * (b - a) <= b
    }
}

/// Hash correspondence: both frequency fields within ratio tolerance and the
/// frame deltas within proportional tolerance.
pub open spec fn spec_hashes_correspond(h1: u32, h2: u32) -> bool {
    &&& spec_freq_within_tolerance(spec_hash_f1(h1) as int, spec_hash_f1(h2) as int)
    &&& spec_freq_within_tolerance(spec_hash_f2(h1) as int, spec_hash_f2(h2) as int)
    &&& spec_delta_within_tolerance(spec_hash_dt(h1) as int, spec_hash_dt(h2) as int)
}

/// Decides hash correspondence exactly as `spec_hashes_correspond` states it.
pub fn hashes_correspond(h1: u32, h2: u32) -> (r: bool)
    ensures
        r == spec_hashes_correspond(h1, h2),
{
    proof {
        lemma_decode_bounds(h1);
        lemma_decode_bounds(h2);
    }
    let (f1a, f2a, dta) = decode_hash(h1);
    let (f1b, f2b, dtb) = decode_hash(h2);
    let f1_ok = 49 * f1b <= 50 * f1a && 50 * f1a <= 51 * f1b;
    let f2_ok = 49 * f2b <= 50 * f2a && 50 * f2a <= 51 * f2b;
    let dt_ok = if dta >= dtb {
        50 * (dta - dtb) <= dta
    } else {
        50 * (dtb - dta) <= dtb
    };
    f1_ok && f2_ok && dt_ok
}

/// First reference position scanned for query position `i`.
pub open spec fn spec_window_lo(i: int) -> int {
    if i >= MATCH_WINDOW { i - MATCH_WINDOW } else { 0 }
}

/// One past the last reference position scanned for query position `i`.
pub open spec fn spec_window_hi(i: int, ref_len: int) -> int {
    if i + MATCH_WINDOW + 1 <= ref_len { i + MATCH_WINDOW + 1 } else { ref_len }
}

/// Offsets of the corresponding pairs for query position `i`, with the
/// reference scan stopped just before position `j`.
pub open spec fn spec_row_offsets_upto(s1: Seq<u32>, s2: Seq<u32>, i: int, j: int) -> Seq<i128>
    decreases j,
{
    if j <= spec_window_lo(i) {
        Seq::empty()
    } else {
        let prev = spec_row_offsets_upto(s1, s2, i, j - 1);
        if spec_hashes_correspond(s1[i], s2[j - 1]) {
            prev.push((i - (j - 1)) as i128)
        } else {
            prev
        }
    }
}

/// Offsets of all corresponding pairs for query position `i`.
pub open spec fn spec_row_offsets(s1: Seq<u32>, s2: Seq<u32>, i: int) -> Seq<i128> {
    spec_row_offsets_upto(s1, s2, i, spec_window_hi(i, s2.len() as int))
}

/// Offsets of all corresponding pairs for query positions below `i`, in scan
/// order.
pub open spec fn spec_offsets_upto(s1: Seq<u32>, s2: Seq<u32>, i: int) -> Seq<i128>
    decreases i,
{
    if i <= 0 {
        Seq::empty()
    } else {
        spec_offsets_upto(s1, s2, i - 1) + spec_row_offsets(s1, s2, i - 1)
    }
}

/// All candidate-match offsets of the two fingerprints.
pub open spec fn spec_match_offsets(s1: Seq<u32>, s2: Seq<u32>) -> Seq<i128> {
    spec_offsets_upto(s1, s2, s1.len() as int)
}

/// Whether offset `o` belongs to the cluster centred at `c`.
pub open spec fn spec_near(o: i128, c: i128) -> bool {
    (c as int) - (OFFSET_TOLERANCE as int) <= (o as int) <= (c as int) + (OFFSET_TOLERANCE as int)
}

/// How many of the first `m` offsets belong to the cluster centred at `c`.
pub open spec fn spec_count_near(offs: Seq<i128>, c: i128, m: int) -> nat
    decreases m,
{
    if m <= 0 {
        0
    } else {
        spec_count_near(offs, c, m - 1) + (if spec_near(offs[m - 1], c) { 1nat } else { 0nat })
    }
}

/// Size of the cluster centred at `c`.
pub open spec fn spec_cluster_size(offs: Seq<i128>, c: i128) -> nat {
    spec_count_near(offs, c, offs.len() as int)
}

/// Largest cluster size over the clusters centred at the first `k` offsets.
pub open spec fn spec_best_cluster_upto(offs: Seq<i128>, k: int) -> nat
    decreases k,
{
    if k <= 0 {
        0
    } else {
        let prev = spec_best_cluster_upto(offs, k - 1);
        let cur = spec_cluster_size(offs, offs[k - 1]);
        if cur > prev { cur } else { prev }
    }
}

/// Largest cluster size over all clusters centred at a candidate offset.
pub open spec fn spec_best_cluster(offs: Seq<i128>) -> nat {
    spec_best_cluster_upto(offs, offs.len() as int)
}

/// The integer square root: the largest `s` with `s * s <= n`.
pub open spec fn spec_isqrt(n: int) -> int
    decreases n,
{
    if n <= 0 {
        0
    } else {
        let p = spec_isqrt(n - 1);
        if (p + 1) * (p + 1) <= n { p + 1 } else { p }
    }
}

/// The integer square root is characterized by its two bounds.
pub proof fn lemma_isqrt_bounds(n: int)
    requires
        n >= 0,
    ensures
        0 <= spec_isqrt(n),
        spec_isqrt(n) * spec_isqrt(n) <= n,
        n < (spec_isqrt(n) + 1) * (spec_isqrt(n) + 1),
    decreases n,
{
    if n == 0 {
    } else {
        lemma_isqrt_bounds(n - 1);
        let p = spec_isqrt(n - 1);
        if (p + 1) * (p + 1) <= n {
            assert(n < ((p + 1) + 1) * ((p + 1) + 1)) by (nonlinear_arith)
                requires
                    n - 1 < (p + 1) * (p + 1),
                    p >= 0,
            ;
        }
    }
}

/// Any value meeting the two square-root bounds is the integer square root.
pub proof fn lemma_isqrt_unique(n: int, r: int)
    requires
        n >= 0,
        r >= 0,
        r * r <= n,
        n < (r + 1) * (r + 1),
    ensures
        r == spec_isqrt(n),
{
    lemma_isqrt_bounds(n);
    let s = spec_isqrt(n);
    if r < s {
        assert((r + 1) * (r + 1) <= s * s) by (nonlinear_arith)
            requires
                0 <= r,
                r + 1 <= s,
        ;
    }
    if s < r {
        assert((s + 1) * (s + 1) <= r * r) by (nonlinear_arith)
            requires
                0 <= s,
                s + 1 <= r,
        ;
    }
}

/// Computes the integer square root by binary search.
pub fn isqrt(n: u64) -> (r: u64)
    ensures
        r as int == spec_isqrt(n as int),
        r * r <= n,
        r < 0x1_0000_0000,
{
    let mut lo: u64 = 0;
    let mut hi: u64 = 0x1_0000_0000;
    while lo + 1 < hi
        invariant
            lo < hi <= 0x1_0000_0000,
            (lo as int) * (lo as int) <= n as int,
            (n as int) < (hi as int) * (hi as int),
        decreases hi - lo,
    {
        let mid = lo + (hi - lo) / 2;
        assert((mid as int) * (mid as int) <= 0x1_0000_0000_0000_0000) by (nonlinear_arith)
            requires
                mid <= 0x1_0000_0000,
        ;
        let sq: u128 = (mid as u128) * (mid as u128);
        if sq <= n as u128 {
            lo = mid;
        } else {
            hi = mid;
        }
    }
    proof {
        lemma_isqrt_unique(n as int, lo as int);
    }
    lo
}

/// The smallest cluster size accepted as match evidence: six tenths of the
/// integer square root of the shorter fingerprint's length, rounded up.
pub open spec fn spec_min_matches(len1: int, len2: int) -> int {
    (3 * spec_isqrt(if len1 <= len2 { len1 } else { len2 }) + 4) / 5
}

/// Computes the length-adaptive minimum cluster size.
pub fn min_matches(len1: usize, len2: usize) -> (r: u64)
    ensures
        r as int == spec_min_matches(len1 as int, len2 as int),
{
    let shorter: u64 = if len1 <= len2 { len1 as u64 } else { len2 as u64 };
    let s = isqrt(shorter);
    (3 * s + 4) / 5
}

/// The confidence score for a pair of fingerprints: full confidence when the
/// best offset cluster reaches the length-adaptive minimum, zero otherwise.
pub open spec fn spec_match_confidence(s1: Seq<u32>, s2: Seq<u32>) -> int {
    let offs = spec_match_offsets(s1, s2);
    if offs.len() == 0 {
        0
    } else if spec_best_cluster(offs) >= spec_min_matches(s1.len() as int, s2.len() as int) {
        100
    } else {
        0
    }
}

/// Compares two fingerprints and returns a confidence score in [0, 100].
///
/// Candidate matches are collected over a sliding reference window, grouped
/// into clusters of nearly equal offset, and the winning cluster is measured
/// against the adaptive minimum stated by `spec_min_matches`.
pub fn match_fingerprints(fp1: &Vec<u32>, fp2: &Vec<u32>) -> (confidence: u32)
    ensures
        confidence as int == spec_match_confidence(fp1@, fp2@),
        confidence <= 100,
{
    let len1 = fp1.len();
    let len2 = fp2.len();
    let mut offs: Vec<i128> = Vec::new();
    let mut i: usize = 0;
    while i < len1
        invariant
            i <= len1,
            len1 == fp1@.len(),
            len2 == fp2@.len(),
            offs@ == spec_offsets_upto(fp1@, fp2@, i as int),
            forall|t: int|
                0 <= t < offs@.len() ==> -0x1_0000_0000_0000_0000 <= #[trigger] offs@[t]
                    <= 0x1_0000_0000_0000_0000,
        decreases len1 - i,
    {
        let lo: usize = if i >= MATCH_WINDOW { i - MATCH_WINDOW } else { 0 };
        let hi: usize = if len2 > MATCH_WINDOW && i <= len2 - MATCH_WINDOW - 1 {
            i + MATCH_WINDOW + 1
        } else {
            len2
        };
        assert(lo as int == spec_window_lo(i as int));
        assert(hi as int == spec_window_hi(i as int, len2 as int));
        let mut j: usize = lo;
        assert(spec_row_offsets_upto(fp1@, fp2@, i as int, j as int) =~= Seq::empty());
        while j < hi
            invariant
                i < len1,
                lo <= j,
                j <= hi || j == lo,
                hi <= len2,
                len1 == fp1@.len(),
                len2 == fp2@.len(),
                lo as int == spec_window_lo(i as int),
                hi as int == spec_window_hi(i as int, len2 as int),
                offs@ == spec_offsets_upto(fp1@, fp2@, i as int) + spec_row_offsets_upto(
                    fp1@,
                    fp2@,
                    i as int,
                    j as int,
                ),
                forall|t: int|
                    0 <= t < offs@.len() ==> -0x1_0000_0000_0000_0000 <= #[trigger] offs@[t]
                        <= 0x1_0000_0000_0000_0000,
            decreases hi - j,
        {
            if hashes_correspond(fp1[i], fp2[j]) {
                offs.push(i as i128 - j as i128);
            }
            j += 1;
        }
        proof {
            if lo >= hi {
                assert(spec_row_offsets_upto(fp1@, fp2@, i as int, hi as int) =~= Seq::empty());
                assert(offs@ =~= spec_offsets_upto(fp1@, fp2@, i as int) + spec_row_offsets(
                    fp1@,
                    fp2@,
                    i as int,
                ));
            }
        }
        i += 1;
    }
    assert(offs@ == spec_match_offsets(fp1@, fp2@));
    if offs.len() == 0 {
        return 0;
    }
    let n_offs = offs.len();
    let mut best: usize = 0;
    let mut k: usize = 0;
    while k < n_offs
        invariant
            k <= n_offs,
            n_offs == offs@.len(),
            best as nat == spec_best_cluster_upto(offs@, k as int),
            best <= n_offs,
            forall|t: int|
                0 <= t < offs@.len() ==> -0x1_0000_0000_0000_0000 <= #[trigger] offs@[t]
                    <= 0x1_0000_0000_0000_0000,
        decreases n_offs - k,
    {
        let c = offs[k];
        let mut cnt: usize = 0;
        let mut m: usize = 0;
        while m < n_offs
            invariant
                m <= n_offs,
                n_offs == offs@.len(),
                cnt as nat == spec_count_near(offs@, c, m as int),
                cnt <= m,
                -0x1_0000_0000_0000_0000 <= c <= 0x1_0000_0000_0000_0000,
                forall|t: int|
                    0 <= t < offs@.len() ==> -0x1_0000_0000_0000_0000 <= #[trigger] offs@[t]
                        <= 0x1_0000_0000_0000_0000,
            decreases n_offs - m,
        {
            let o = offs[m];
            if o >= c - OFFSET_TOLERANCE && o <= c + OFFSET_TOLERANCE {
                cnt += 1;
            }
            m += 1;
        }
        if cnt > best {
            best = cnt;
        }
        k += 1;
    }
    assert(best as nat == spec_best_cluster(offs@));
    let minm = min_matches(len1, len2);
    if best as u64 >= minm {
        100
    } else {
        0
    }
}

/// Every hash corresponds to itself.
pub proof fn lemma_correspond_reflexive(h: u32)
    ensures
        spec_hashes_correspond(h, h),
{
    lemma_decode_bounds(h);
}

/// The cluster count over the first `m` positions reads only those positions.
proof fn lemma_count_near_agrees(s1: Seq<i128>, s2: Seq<i128>, c: i128, m: int)
    requires
        forall|t: int| 0 <= t < m ==> #[trigger] s1[t] == s2[t],
    ensures
        spec_count_near(s1, c, m) == spec_count_near(s2, c, m),
    decreases m,
{
    if m > 0 {
        lemma_count_near_agrees(s1, s2, c, m - 1);
    }
}

/// The cluster count over a concatenation is the sum of the counts over the
/// parts.
proof fn lemma_count_near_add(a: Seq<i128>, b: Seq<i128>, c: i128, k: int)
    requires
        0 <= k <= b.len(),
    ensures
        spec_count_near(a + b, c, a.len() + k) == spec_count_near(a, c, a.len() as int)
            + spec_count_near(b, c, k),
    decreases k,
{
    if k == 0 {
        lemma_count_near_agrees(a + b, a, c, a.len() as int);
    } else {
        lemma_count_near_add(a, b, c, k - 1);
        assert((a + b)[a.len() + k - 1] == b[k - 1]);
    }
}

/// The cluster count never exceeds the number of positions counted.
proof fn lemma_count_near_le(s: Seq<i128>, c: i128, m: int)
    requires
        0 <= m <= s.len(),
    ensures
        spec_count_near(s, c, m) <= m,
    decreases m,
{
    if m > 0 {
        lemma_count_near_le(s, c, m - 1);
    }
}

/// When both fingerprints are the same sequence, the row of query position
/// `i` records the zero offset of the pair (i, i).
proof fn lemma_row_self_has_zero(fp: Seq<u32>, i: int, j: int)
    requires
        0 <= i < fp.len(),
        i + 1 <= j <= spec_window_hi(i, fp.len() as int),
    ensures
        spec_count_near(
            spec_row_offsets_upto(fp, fp, i, j),
            0,
            spec_row_offsets_upto(fp, fp, i, j).len() as int,
        ) >= 1,
    decreases j,
{
    let prev = spec_row_offsets_upto(fp, fp, i, j - 1);
    if j == i + 1 {
        lemma_correspond_reflexive(fp[i]);
        let row = spec_row_offsets_upto(fp, fp, i, j);
        assert(row == prev.push(0i128));
        lemma_count_near_agrees(row, prev, 0i128, prev.len() as int);
        assert(spec_count_near(row, 0, row.len() as int) == spec_count_near(
            prev,
            0,
            prev.len() as int,
        ) + 1);
    } else {
        lemma_row_self_has_zero(fp, i, j - 1);
        let row = spec_row_offsets_upto(fp, fp, i, j);
        lemma_count_near_agrees(row, prev, 0i128, prev.len() as int);
        if spec_hashes_correspond(fp[i], fp[j - 1]) {
            assert(row == prev.push((i - (j - 1)) as i128));
            assert(spec_count_near(row, 0, row.len() as int) >= spec_count_near(
                prev,
                0,
                prev.len() as int,
            ));
        } else {
            assert(row == prev);
        }
    }
}

/// When both fingerprints are the same sequence, the offsets of the first `i`
/// query positions contain at least `i` members of the cluster centred at
/// offset zero.
proof fn lemma_offsets_self_zero_cluster(fp: Seq<u32>, i: int)
    requires
        0 <= i <= fp.len(),
    ensures
        spec_count_near(
            spec_offsets_upto(fp, fp, i),
            0,
            spec_offsets_upto(fp, fp, i).len() as int,
        ) >= i,
    decreases i,
{
    if i > 0 {
        lemma_offsets_self_zero_cluster(fp, i - 1);
        let a = spec_offsets_upto(fp, fp, i - 1);
        let b = spec_row_offsets(fp, fp, i - 1);
        assert(i - 1 + 1 <= spec_window_hi(i - 1, fp.len() as int));
        lemma_row_self_has_zero(fp, i - 1, spec_window_hi(i - 1, fp.len() as int));
        lemma_count_near_add(a, b, 0i128, b.len() as int);
    }
}

/// The best cluster size is at least the size of the cluster centred at any
/// candidate offset.
proof fn lemma_best_cluster_upto_ge(offs: Seq<i128>, k: int, t: int)
    requires
        0 <= t < k <= offs.len(),
    ensures
        spec_best_cluster_upto(offs, k) >= spec_cluster_size(offs, offs[t]),
    decreases k,
{
    if t < k - 1 {
        lemma_best_cluster_upto_ge(offs, k - 1, t);
    }
}

/// When both fingerprints are the same non-empty sequence, the very first
/// recorded offset is zero.
proof fn lemma_offsets_self_first_zero(fp: Seq<u32>, i: int)
    requires
        1 <= i <= fp.len(),
    ensures
        spec_offsets_upto(fp, fp, i).len() >= 1,
        spec_offsets_upto(fp, fp, i)[0] == 0i128,
    decreases i,
{
    if i == 1 {
        let row = spec_row_offsets(fp, fp, 0);
        lemma_row_self_first_zero(fp, spec_window_hi(0, fp.len() as int));
        assert(spec_offsets_upto(fp, fp, 1) == Seq::<i128>::empty() + row);
        assert((Seq::<i128>::empty() + row)[0] == row[0]);
    } else {
        lemma_offsets_self_first_zero(fp, i - 1);
        assert(spec_offsets_upto(fp, fp, i)[0] == spec_offsets_upto(fp, fp, i - 1)[0]);
    }
}

/// When both fingerprints are the same non-empty sequence, the first offset
/// recorded for query position zero is zero.
proof fn lemma_row_self_first_zero(fp: Seq<u32>, j: int)
    requires
        fp.len() >= 1,
        1 <= j <= spec_window_hi(0, fp.len() as int),
    ensures
        spec_row_offsets_upto(fp, fp, 0, j).len() >= 1,
        spec_row_offsets_upto(fp, fp, 0, j)[0] == 0i128,
    decreases j,
{
    if j == 1 {
        lemma_correspond_reflexive(fp[0]);
        assert(spec_row_offsets_upto(fp, fp, 0, 0) =~= Seq::<i128>::empty());
        assert(spec_row_offsets_upto(fp, fp, 0, 1) =~= Seq::<i128>::empty().push(0i128));
    } else {
        lemma_row_self_first_zero(fp, j - 1);
    }
}

/// The adaptive minimum cluster size never exceeds the shorter fingerprint's
/// length.
proof fn lemma_min_matches_le_len(n: int)
    requires
        n >= 1,
    ensures
        spec_min_matches(n, n) <= n,
{
    lemma_isqrt_bounds(n);
    let s = spec_isqrt(n);
    assert(s >= 1) by (nonlinear_arith)
        requires
            n >= 1,
            s >= 0,
            n < (s + 1) * (s + 1),
    ;
    assert(s <= n) by (nonlinear_arith)
        requires
            s >= 1,
            s * s <= n,
    ;
    if n == 1 {
        assert(spec_min_matches(1, 1) == 7int / 5int);
    } else {
        assert(3 * s + 4 <= 5 * n);
        assert((3 * s + 4) / 5 <= (5 * n) / 5) by {
            vstd::arithmetic::div_mod::lemma_div_is_ordered(3 * s + 4, 5 * n, 5);
        }
        assert((5 * n) / 5 == n) by {
            vstd::arithmetic::div_mod::lemma_div_by_multiple(n, 5);
        }
    }
}

/// Self-match law: matching any non-empty fingerprint against an identical
/// copy of itself yields full confidence.
pub proof fn lemma_self_match(fp: Seq<u32>)
    requires
        fp.len() >= 1,
    ensures
        spec_match_confidence(fp, fp) == 100,
{
    let n = fp.len() as int;
    let offs = spec_match_offsets(fp, fp);
    lemma_offsets_self_zero_cluster(fp, n);
    lemma_count_near_le(offs, 0i128, offs.len() as int);
    assert(offs.len() >= n);
    lemma_offsets_self_first_zero(fp, n);
    lemma_best_cluster_upto_ge(offs, offs.len() as int, 0);
    assert(spec_best_cluster(offs) >= spec_cluster_size(offs, 0i128));
    assert(spec_cluster_size(offs, 0i128) >= n);
    lemma_min_matches_le_len(n);
    assert(spec_best_cluster(offs) >= spec_min_matches(n, n));
}

} // verus!
