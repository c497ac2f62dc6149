//! Alignment location.
//!
//! Distinct from the confidence score, this search answers at what offset of
//! the reference fingerprint the query fingerprint aligns.  The query is cut
//! into small windows of consecutive hashes; for every candidate offset the
//! search measures the longest contiguous run of windows that correspond to
//! the reference, and it reports the best offset only when that run reaches a
//! minimum length.

use vstd::prelude::*;

use crate::matcher::{hashes_correspond, spec_hashes_correspond};

verus! {

/// Smallest run of matching four-hash windows accepted as alignment
/// evidence.
pub const MIN_ALIGNMENT_RUN: usize = 15;

/// Window `w` of the query matches the reference at offset `o`: the window
/// lies wholly inside the reference and every hash in it corresponds.
pub open spec fn spec_window_matches(q: Seq<u32>, r: Seq<u32>, o: int, w: int) -> bool {
    &&& 0 <= o
    &&& o + 4 * w + 4 <= r.len()
    &&& forall|u: int|
        4 * w <= u < 4 * w + 4 ==> spec_hashes_correspond(#[trigger] q[u], r[o + u])
}

/// Length of the run of matching windows ending just before window `w` at
/// offset `o`.
pub open spec fn spec_streak(q: Seq<u32>, r: Seq<u32>, o: int, w: int) -> nat
    decreases w,
{
    if w <= 0 {
        0
    } else if spec_window_matches(q, r, o, w - 1) {
        spec_streak(q, r, o, w - 1) + 1
    } else {
        0
    }
}

/// Longest run of matching windows among the first `w` windows at offset `o`.
pub open spec fn spec_best_run_upto(q: Seq<u32>, r: Seq<u32>, o: int, w: int) -> nat
    decreases w,
{
    if w <= 0 {
        0
    } else {
        let prev = spec_best_run_upto(q, r, o, w - 1);
        let cur = spec_streak(q, r, o, w);
        if cur > prev { cur } else { prev }
    }
}

/// Longest run of matching windows at offset `o`, over all complete query
/// windows.
pub open spec fn spec_offset_run(q: Seq<u32>, r: Seq<u32>, o: int) -> nat {
    spec_best_run_upto(q, r, o, q.len() as int / 4)
}

/// Best window run over the offsets below `n`.
pub open spec fn spec_global_best_upto(q: Seq<u32>, r: Seq<u32>, n: int) -> nat
    decreases n,
{
    if n <= 0 {
        0
    } else {
        let prev = spec_global_best_upto(q, r, n - 1);
        let cur = spec_offset_run(q, r, n - 1);
        if cur > prev { cur } else { prev }
    }
}

/// Best window run over all reference offsets.
pub open spec fn spec_global_best(q: Seq<u32>, r: Seq<u32>) -> nat {
    spec_global_best_upto(q, r, r.len() as int)
}

/// First offset attaining the best window run among the offsets below `n`.
pub open spec fn spec_best_offset_upto(q: Seq<u32>, r: Seq<u32>, n: int) -> int
    decreases n,
{
    if n <= 1 {
        0
    } else if spec_offset_run(q, r, n - 1) > spec_global_best_upto(q, r, n - 1) {
        n - 1
    } else {
        spec_best_offset_upto(q, r, n - 1)
    }
}

/// First offset attaining the best window run.
pub open spec fn spec_best_offset(q: Seq<u32>, r: Seq<u32>) -> int {
    spec_best_offset_upto(q, r, r.len() as int)
}

/// Decides whether query window `w` matches the reference at offset `o`.
fn window_matches(query: &Vec<u32>, reference: &Vec<u32>, o: usize, w: usize) -> (res: bool)
    requires
        4 * (w as int) + 4 <= query@.len(),
    ensures
        res == spec_window_matches(query@, reference@, o as int, w as int),
{
    let qlen = query.len();
    let rlen = reference.len();
    assert(4 * (w as int) + 4 <= qlen);
    let base = 4 * w;
    if rlen < 4 || o > rlen - 4 || rlen - 4 - o < base {
        return false;
    }
    let mut t: usize = 0;
    while t < 4
        invariant
            t <= 4,
            base == 4 * (w as int),
            qlen == query@.len(),
            rlen == reference@.len(),
            base + 4 <= qlen,
            o + base + 4 <= rlen,
            forall|u: int|
                base <= u < base + t ==> spec_hashes_correspond(
                    #[trigger] query@[u],
                    reference@[o + u],
                ),
        decreases 4 - t,
    {
        if !hashes_correspond(query[base + t], reference[o + base + t]) {
            return false;
        }
        t += 1;
    }
    true
}

/// Searches the reference for the offset at which a contiguous run of query
/// windows matches, and returns the offset and its run length when the run
/// reaches `MIN_ALIGNMENT_RUN` windows.
pub fn locate_alignment(query: &Vec<u32>, reference: &Vec<u32>) -> (result: Option<(usize, usize)>)
    ensures
        match result {
            Some(pair) => {
                &&& pair.1 as nat == spec_global_best(query@, reference@)
                &&& pair.1 >= MIN_ALIGNMENT_RUN
                &&& pair.0 as int == spec_best_offset(query@, reference@)
            },
            None => spec_global_best(query@, reference@) < MIN_ALIGNMENT_RUN as nat,
        },
{
    let n_windows = query.len() / 4;
    let mut best_run: usize = 0;
    let mut best_off: usize = 0;
    let mut o: usize = 0;
    while o < reference.len()
        invariant
            o <= reference@.len(),
            n_windows == query@.len() / 4,
            best_run as nat == spec_global_best_upto(query@, reference@, o as int),
            best_off as int == spec_best_offset_upto(query@, reference@, o as int),
            best_run <= n_windows,
        decreases reference@.len() - o,
    {
        let mut streak: usize = 0;
        let mut run: usize = 0;
        let mut w: usize = 0;
        while w < n_windows
            invariant
                w <= n_windows,
                n_windows == query@.len() / 4,
                streak as nat == spec_streak(query@, reference@, o as int, w as int),
                run as nat == spec_best_run_upto(query@, reference@, o as int, w as int),
                streak <= w,
                run <= w,
            decreases n_windows - w,
        {
            assert(4 * (w as int) + 4 <= query@.len()) by {
                assert(w + 1 <= query@.len() / 4);
                vstd::arithmetic::div_mod::lemma_fundamental_div_mod(query@.len() as int, 4);
            }
            if window_matches(query, reference, o, w) {
                streak += 1;
            } else {
                streak = 0;
            }
            if streak > run {
                run = streak;
            }
            w += 1;
        }
        if run > best_run {
            best_run = run;
            best_off = o;
        }
        o += 1;
    }
    if best_run >= MIN_ALIGNMENT_RUN {
        Some((best_off, best_run))
    } else {
        None
    }
}

/// No streak is longer than the number of windows it ends within.
proof fn lemma_streak_le(q: Seq<u32>, r: Seq<u32>, o: int, w: int)
    requires
        w >= 0,
    ensures
        spec_streak(q, r, o, w) <= w,
    decreases w,
{
    if w > 0 {
        lemma_streak_le(q, r, o, w - 1);
    }
}

/// No run among the first `w` windows is longer than `w`.
proof fn lemma_best_run_upto_le(q: Seq<u32>, r: Seq<u32>, o: int, w: int)
    requires
        w >= 0,
    ensures
        spec_best_run_upto(q, r, o, w) <= w,
    decreases w,
{
    if w > 0 {
        lemma_best_run_upto_le(q, r, o, w - 1);
        lemma_streak_le(q, r, o, w);
    }
}

/// The global best run is at least the run of any scanned offset.
proof fn lemma_global_best_upto_ge(q: Seq<u32>, r: Seq<u32>, n: int, o: int)
    requires
        0 <= o < n,
    ensures
        spec_global_best_upto(q, r, n) >= spec_offset_run(q, r, o),
    decreases n,
{
    if o < n - 1 {
        lemma_global_best_upto_ge(q, r, n - 1, o);
    }
}

/// The global best run never exceeds the number of complete query windows.
proof fn lemma_global_best_le(q: Seq<u32>, r: Seq<u32>, n: int)
    requires
        n >= 0,
    ensures
        spec_global_best_upto(q, r, n) <= q.len() / 4,
    decreases n,
{
    if n > 0 {
        lemma_global_best_le(q, r, n - 1);
        lemma_best_run_upto_le(q, r, n - 1, q.len() as int / 4);
    }
}

/// At an offset where the query corresponds hash for hash, every complete
/// window matches, and the streak grows through window `w`.
proof fn lemma_full_streak(q: Seq<u32>, r: Seq<u32>, k: int, w: int)
    requires
        0 <= k,
        k + q.len() <= r.len(),
        forall|t: int| 0 <= t < q.len() ==> spec_hashes_correspond(#[trigger] q[t], r[k + t]),
        0 <= w <= q.len() / 4,
    ensures
        spec_streak(q, r, k, w) == w,
    decreases w,
{
    if w > 0 {
        lemma_full_streak(q, r, k, w - 1);
        assert(spec_window_matches(q, r, k, w - 1)) by {
            assert(4 * (w - 1) + 4 <= q.len()) by {
                vstd::arithmetic::div_mod::lemma_fundamental_div_mod(q.len() as int, 4);
            }
            assert(forall|u: int|
                4 * (w - 1) <= u < 4 * (w - 1) + 4 ==> spec_hashes_correspond(
                    #[trigger] q[u],
                    r[k + u],
                ));
        }
    }
}

/// Below offset `k` every run falls short of `best`, so the scan has not
/// settled yet; from `k` on it reports `k` and `best`.
proof fn lemma_best_offset_unique_upto(q: Seq<u32>, r: Seq<u32>, k: int, best: nat, n: int)
    requires
        1 <= best,
        0 <= k < r.len(),
        spec_offset_run(q, r, k) == best,
        forall|o: int|
            0 <= o < r.len() && o != k ==> #[trigger] spec_offset_run(q, r, o) < best,
        0 <= n <= r.len(),
    ensures
        n <= k ==> spec_global_best_upto(q, r, n) < best,
        n > k ==> spec_global_best_upto(q, r, n) == best && spec_best_offset_upto(q, r, n) == k,
    decreases n,
{
    if n > 0 {
        lemma_best_offset_unique_upto(q, r, k, best, n - 1);
    }
}

/// When one offset's run beats every other offset's run, the alignment
/// search settles on exactly that offset and that run.
pub proof fn lemma_unique_best_offset(q: Seq<u32>, r: Seq<u32>, k: int)
    requires
        0 <= k < r.len(),
        spec_offset_run(q, r, k) >= 1,
        forall|o: int|
            0 <= o < r.len() && o != k ==> #[trigger] spec_offset_run(q, r, o) < spec_offset_run(
                q,
                r,
                k,
            ),
    ensures
        spec_global_best(q, r) == spec_offset_run(q, r, k),
        spec_best_offset(q, r) == k,
{
    lemma_best_offset_unique_upto(q, r, k, spec_offset_run(q, r, k), r.len() as int);
}

/// Shift-recovery law: when the query appears, hash for hash within
/// correspondence tolerance, at offset `k` of the reference, the alignment
/// search attains the maximum achievable run, the number of complete query
/// windows.
pub proof fn lemma_full_match_alignment(q: Seq<u32>, r: Seq<u32>, k: int)
    requires
        0 <= k,
        k + q.len() <= r.len(),
        q.len() >= 4,
        forall|t: int| 0 <= t < q.len() ==> spec_hashes_correspond(#[trigger] q[t], r[k + t]),
    ensures
        spec_global_best(q, r) == q.len() / 4,
{
    let nw = q.len() as int / 4;
    lemma_full_streak(q, r, k, nw);
    assert(spec_best_run_upto(q, r, k, nw) >= spec_streak(q, r, k, nw));
    lemma_best_run_upto_le(q, r, k, nw);
    assert(spec_offset_run(q, r, k) == nw);
    assert(k < r.len()) by {
        vstd::arithmetic::div_mod::lemma_fundamental_div_mod(q.len() as int, 4);
    }
    lemma_global_best_upto_ge(q, r, r.len() as int, k);
    lemma_global_best_le(q, r, r.len() as int);
}

} // verus!
