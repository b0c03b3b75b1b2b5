//! Paired-end overlap detection: align read one against the reverse
//! complement of read two, in both shift directions, and keep the best
//! candidate under a mismatch budget.

use vstd::prelude::*;
use crate::bases::{comp, imin, lemma_mism_at_bounds, mism_at, revcomp};
use crate::base_correction::complement;
use crate::record::FastqRecord;

verus! {

/// Offsets scanned: `o >= 0` shifts read one to the right of the reverse
/// complement, `o < 0` the other way.
pub open spec fn cand_in_range(len1: int, len2: int, o: int) -> bool {
    (0 <= o < len1) || (0 < -o < len2)
}

/// Overlap length of a candidate offset.
pub open spec fn cand_len(len1: int, len2: int, o: int) -> int {
    if o >= 0 {
        imin(len1 - o, len2)
    } else {
        imin(len2 + o, len1)
    }
}

/// Hamming differences over the candidate's overlap window.
pub open spec fn cand_diff(s1: Seq<u8>, rc: Seq<u8>, o: int) -> nat {
    if o >= 0 {
        mism_at(s1, o, rc, 0, cand_len(s1.len() as int, rc.len() as int, o))
    } else {
        mism_at(rc, -o, s1, 0, cand_len(s1.len() as int, rc.len() as int, o))
    }
}

/// Allowed differences: the absolute ceiling or the per-length fraction,
/// whichever is smaller.
pub open spec fn cand_limit(len: int, dl: int, pct: int) -> int {
    imin(dl, len * pct / 100)
}

/// A candidate is acceptable when its window is long enough and its
/// differences stay within the limit.
pub open spec fn cand_ok(s1: Seq<u8>, rc: Seq<u8>, o: int, min_ov: int, dl: int, pct: int) -> bool {
    let l = cand_len(s1.len() as int, rc.len() as int, o);
    l >= min_ov && cand_diff(s1, rc, o) <= cand_limit(l, dl, pct)
}

/// The offset scanned at index `t`: first every non-negative shift in
/// order, then the negative ones.
pub open spec fn cand_of(len1: int, t: int) -> int {
    if t < len1 {
        t
    } else {
        -(t - len1 + 1)
    }
}

/// Number of scanned candidates.
pub open spec fn scan_total(len1: int, len2: int) -> int {
    len1 + if len2 >= 1 {
        len2 - 1
    } else {
        0
    }
}

/// The best candidate seen so far.
pub ghost struct OvBest {
    pub offset: int,
    pub len: int,
    pub diff: nat,
}

/// A new candidate displaces the best so far when it has strictly fewer
/// differences, or as many over a strictly longer window.
pub open spec fn ov_better(c_diff: nat, c_len: int, best: Option<OvBest>) -> bool {
    match best {
        Option::None => true,
        Option::Some(b) => c_diff < b.diff || (c_diff == b.diff && c_len > b.len),
    }
}

/// One scan step: examine the candidate at index `t`.
pub open spec fn scan_step(
    s1: Seq<u8>,
    rc: Seq<u8>,
    min_ov: int,
    dl: int,
    pct: int,
    t: int,
    best: Option<OvBest>,
) -> Option<OvBest> {
    let o = cand_of(s1.len() as int, t);
    let l = cand_len(s1.len() as int, rc.len() as int, o);
    let d = cand_diff(s1, rc, o);
    if cand_ok(s1, rc, o, min_ov, dl, pct) && ov_better(d, l, best) {
        Option::Some(OvBest { offset: o, len: l, diff: d })
    } else {
        best
    }
}

/// Fold the scan from index `t` to the end.
pub open spec fn scan_best(
    s1: Seq<u8>,
    rc: Seq<u8>,
    min_ov: int,
    dl: int,
    pct: int,
    t: int,
    best: Option<OvBest>,
) -> Option<OvBest>
    decreases scan_total(s1.len() as int, rc.len() as int) - t,
{
    if t < 0 || t >= scan_total(s1.len() as int, rc.len() as int) {
        best
    } else {
        scan_best(s1, rc, min_ov, dl, pct, t + 1, scan_step(s1, rc, min_ov, dl, pct, t, best))
    }
}

/// The overlap chosen for a pair of reads, if any.
pub open spec fn best_overlap(
    s1: Seq<u8>,
    s2: Seq<u8>,
    min_ov: int,
    dl: int,
    pct: int,
) -> Option<OvBest> {
    scan_best(s1, revcomp(s2), min_ov, dl, pct, 0, Option::None)
}

/// A best entry is internally consistent: an in-range offset whose length
/// and differences are those of the offset, and which is acceptable.
pub open spec fn best_wf(s1: Seq<u8>, rc: Seq<u8>, min_ov: int, dl: int, pct: int, b: OvBest) -> bool {
    &&& cand_in_range(s1.len() as int, rc.len() as int, b.offset)
    &&& b.len == cand_len(s1.len() as int, rc.len() as int, b.offset)
    &&& b.diff == cand_diff(s1, rc, b.offset)
    &&& cand_ok(s1, rc, b.offset, min_ov, dl, pct)
}

/// Whatever the scan returns is a well-formed acceptable candidate.
pub proof fn lemma_scan_best_wf(
    s1: Seq<u8>,
    rc: Seq<u8>,
    min_ov: int,
    dl: int,
    pct: int,
    t: int,
    best: Option<OvBest>,
)
    requires
        best is Some ==> best_wf(s1, rc, min_ov, dl, pct, best->0),
    ensures
        scan_best(s1, rc, min_ov, dl, pct, t, best) is Some ==> best_wf(
            s1,
            rc,
            min_ov,
            dl,
            pct,
            scan_best(s1, rc, min_ov, dl, pct, t, best)->0,
        ),
    decreases scan_total(s1.len() as int, rc.len() as int) - t,
{
    if !(t < 0 || t >= scan_total(s1.len() as int, rc.len() as int)) {
        let o = cand_of(s1.len() as int, t);
        if t < s1.len() {
            assert(cand_in_range(s1.len() as int, rc.len() as int, o));
        } else {
            assert(0 < -o < rc.len());
        }
        lemma_scan_best_wf(s1, rc, min_ov, dl, pct, t + 1, scan_step(s1, rc, min_ov, dl, pct, t, best));
    }
}

/// The scan never worsens what it holds: the result has no more
/// differences than the starting best, and no shorter window at equal
/// differences.
pub proof fn lemma_scan_improves(
    s1: Seq<u8>,
    rc: Seq<u8>,
    min_ov: int,
    dl: int,
    pct: int,
    t: int,
    b: OvBest,
)
    ensures
        ({
            let r = scan_best(s1, rc, min_ov, dl, pct, t, Option::Some(b));
            r is Some && r->0.diff <= b.diff && (r->0.diff == b.diff ==> r->0.len >= b.len)
        }),
    decreases scan_total(s1.len() as int, rc.len() as int) - t,
{
    if !(t < 0 || t >= scan_total(s1.len() as int, rc.len() as int)) {
        let stepped = scan_step(s1, rc, min_ov, dl, pct, t, Option::Some(b));
        lemma_scan_improves(s1, rc, min_ov, dl, pct, t + 1, stepped->0);
    }
}

/// Every acceptable candidate at an index the scan still visits is
/// dominated by the scan's final answer.
pub proof fn lemma_scan_dominates(
    s1: Seq<u8>,
    rc: Seq<u8>,
    min_ov: int,
    dl: int,
    pct: int,
    t: int,
    best: Option<OvBest>,
    t2: int,
)
    requires
        0 <= t <= t2 < scan_total(s1.len() as int, rc.len() as int),
        cand_ok(s1, rc, cand_of(s1.len() as int, t2), min_ov, dl, pct),
    ensures
        ({
            let r = scan_best(s1, rc, min_ov, dl, pct, t, best);
            let o2 = cand_of(s1.len() as int, t2);
            let d2 = cand_diff(s1, rc, o2);
            let l2 = cand_len(s1.len() as int, rc.len() as int, o2);
            r is Some && r->0.diff <= d2 && (r->0.diff == d2 ==> l2 <= r->0.len)
        }),
    decreases scan_total(s1.len() as int, rc.len() as int) - t,
{
    let stepped = scan_step(s1, rc, min_ov, dl, pct, t, best);
    assert(scan_best(s1, rc, min_ov, dl, pct, t, best) == scan_best(
        s1,
        rc,
        min_ov,
        dl,
        pct,
        t + 1,
        stepped,
    ));
    if t == t2 {
        let o2 = cand_of(s1.len() as int, t2);
        let d2 = cand_diff(s1, rc, o2);
        let l2 = cand_len(s1.len() as int, rc.len() as int, o2);
        assert(stepped is Some);
        assert(stepped->0.diff <= d2 && (stepped->0.diff == d2 ==> l2 <= stepped->0.len));
        lemma_scan_improves(s1, rc, min_ov, dl, pct, t + 1, stepped->0);
    } else {
        lemma_scan_dominates(s1, rc, min_ov, dl, pct, t + 1, stepped, t2);
    }
}

/// Outcome of overlap analysis for one pair.
#[derive(Clone, Copy, Debug)]
pub struct OverlapResult {
    pub overlapped: bool,
    pub offset: i32,
    pub overlap_len: usize,
    pub diff: usize,
}

/// Count mismatching positions over the first `len` bytes of two slices.
pub fn count_diff(s1: &[u8], s2: &[u8], len: usize) -> (r: usize)
    requires
        len <= s1@.len(),
        len <= s2@.len(),
    ensures
        r == mism_at(s1@, 0, s2@, 0, len as int),
{
    let mut diff: usize = 0;
    let mut i: usize = 0;
    while i < len
        invariant
            i <= len,
            len <= s1@.len(),
            len <= s2@.len(),
            diff == mism_at(s1@, 0, s2@, 0, i as int),
            diff <= i,
        decreases len - i,
    {
        if s1[i] != s2[i] {
            diff = diff + 1;
        }
        i = i + 1;
    }
    diff
}

/// Count mismatches between `a[ai..ai+n]` and `b[bi..bi+n]`.
pub(crate) fn diff_from(a: &Vec<u8>, ai: usize, b: &Vec<u8>, bi: usize, n: usize) -> (r: usize)
    requires
        ai + n <= a@.len(),
        bi + n <= b@.len(),
    ensures
        r == mism_at(a@, ai as int, b@, bi as int, n as int),
{
    let alen = a.len();
    let blen = b.len();
    let mut diff: usize = 0;
    let mut i: usize = 0;
    while i < n
        invariant
            i <= n,
            alen == a@.len(),
            blen == b@.len(),
            ai + n <= alen,
            bi + n <= blen,
            diff == mism_at(a@, ai as int, b@, bi as int, i as int),
            diff <= i,
        decreases n - i,
    {
        if a[ai + i] != b[bi + i] {
            diff = diff + 1;
        }
        i = i + 1;
    }
    diff
}

/// Reverse complement of a byte sequence.
pub fn reverse_complement(seq: &[u8]) -> (r: Vec<u8>)
    ensures
        r@ == revcomp(seq@),
{
    let n = seq.len();
    let mut res: Vec<u8> = Vec::new();
    let mut i: usize = 0;
    while i < n
        invariant
            i <= n,
            n == seq@.len(),
            res@.len() == i,
            forall|j: int| 0 <= j < i ==> #[trigger] res@[j] == comp(seq@[n - 1 - j]),
        decreases n - i,
    {
        let c = complement(seq[n - 1 - i]);
        res.push(c);
        i = i + 1;
    }
    assert(res@ =~= revcomp(seq@));
    res
}

pub struct OverlapAnalyzer;

impl OverlapAnalyzer {
    /// Overlap analysis with the quick stock thresholds: a minimum
    /// overlap of ten bases, at most five differences, and at most twenty
    /// percent of the window differing.
    pub fn analyze(r1: &FastqRecord, r2: &FastqRecord) -> (r: OverlapResult)
        requires
            r1@.seq.len() <= i32::MAX,
            r2@.seq.len() <= i32::MAX,
        ensures
            ({
                let best = best_overlap(r1@.seq, r2@.seq, 10, 5, 20);
                match best {
                    Option::None => r.overlapped == false && r.offset == 0 && r.overlap_len == 0
                        && r.diff == usize::MAX,
                    Option::Some(b) => r.overlapped == true && r.offset == b.offset
                        && r.overlap_len == b.len && r.diff == b.diff,
                }
            }),
    {
        Self::analyze_with_params(r1, r2, 10, 5, 20)
    }

    /// Scan both shift directions and return the acceptable overlap with
    /// the fewest differences, ties resolved towards the longer window.
    pub fn analyze_with_params(
        r1: &FastqRecord,
        r2: &FastqRecord,
        min_overlap: usize,
        diff_limit: usize,
        diff_percent_limit: usize,
    ) -> (r: OverlapResult)
        requires
            r1@.seq.len() <= i32::MAX,
            r2@.seq.len() <= i32::MAX,
            diff_percent_limit <= 255,
        ensures
            ({
                let best = best_overlap(
                    r1@.seq,
                    r2@.seq,
                    min_overlap as int,
                    diff_limit as int,
                    diff_percent_limit as int,
                );
                match best {
                    Option::None => r.overlapped == false && r.offset == 0 && r.overlap_len == 0
                        && r.diff == usize::MAX,
                    Option::Some(b) => r.overlapped == true && r.offset == b.offset
                        && r.overlap_len == b.len && r.diff == b.diff,
                }
            }),
    {
        let ghost s1v = r1@.seq;
        let ghost mo = min_overlap as int;
        let ghost dl = diff_limit as int;
        let ghost pct = diff_percent_limit as int;
        let len1 = r1.seq.len();
        let len2 = r2.seq.len();
        let rc = reverse_complement(r2.seq.as_slice());
        let ghost rcv = rc@;
        let ghost total = scan_total(len1 as int, len2 as int);

        let mut found = false;
        let mut best_offset: i32 = 0;
        let mut best_len: usize = 0;
        let mut best_diff: usize = usize::MAX;
        let ghost mut best: Option<OvBest> = Option::None;

        let mut offset: usize = 0;
        while offset < len1
            invariant
                offset <= len1,
                len1 == s1v.len(),
                len2 == rcv.len(),
                len1 <= i32::MAX,
                len2 <= i32::MAX,
                diff_percent_limit <= 255,
                rcv == revcomp(r2@.seq),
                rc@ == rcv,
                s1v == r1@.seq,
                mo == min_overlap as int,
                dl == diff_limit as int,
                pct == diff_percent_limit as int,
                scan_best(s1v, rcv, mo, dl, pct, 0, Option::None) == scan_best(
                    s1v,
                    rcv,
                    mo,
                    dl,
                    pct,
                    offset as int,
                    best,
                ),
                best == (if found {
                    Option::Some(
                        OvBest { offset: best_offset as int, len: best_len as int, diff: best_diff as nat },
                    )
                } else {
                    Option::None::<OvBest>
                }),
                !found ==> best_offset == 0 && best_len == 0 && best_diff == usize::MAX,
            decreases len1 - offset,
        {
            let ghost t: int = offset as int;
            let ghost o = cand_of(len1 as int, t);
            assert(o == offset as int);
            let overlap_len: usize = if len1 - offset <= len2 {
                len1 - offset
            } else {
                len2
            };
            assert(overlap_len as int == cand_len(len1 as int, len2 as int, o));
            if overlap_len >= min_overlap {
                let diff = diff_from(&r1.seq, offset, &rc, 0, overlap_len);
                proof {
                    lemma_mism_at_bounds(s1v, o, rcv, 0, overlap_len as int);
                }
                assert((overlap_len as u64) * (diff_percent_limit as u64) <= 0x7fffffffu64 * 255)
                    by (nonlinear_arith)
                    requires
                        overlap_len <= 0x7fffffff,
                        diff_percent_limit <= 255,
                ;
                let limit64: u64 = {
                    let frac = (overlap_len as u64) * (diff_percent_limit as u64) / 100;
                    if (diff_limit as u64) <= frac {
                        diff_limit as u64
                    } else {
                        frac
                    }
                };
                assert(limit64 as int == cand_limit(overlap_len as int, dl, pct));
                if (diff as u64) <= limit64 {
                    assert(cand_ok(s1v, rcv, o, mo, dl, pct));
                    if diff < best_diff || (diff == best_diff && overlap_len > best_len) {
                        best_diff = diff;
                        best_offset = offset as i32;
                        best_len = overlap_len;
                        found = true;
                        proof {
                            best = Option::Some(
                                OvBest { offset: o, len: overlap_len as int, diff: diff as nat },
                            );
                        }
                    } else {
                        assert(!ov_better(diff as nat, overlap_len as int, best));
                    }
                } else {
                    assert(!cand_ok(s1v, rcv, o, mo, dl, pct));
                }
            } else {
                assert(!cand_ok(s1v, rcv, o, mo, dl, pct));
            }
            offset = offset + 1;
        }

        let mut q: usize = 1;
        while q < len2
            invariant
                1 <= q,
                q <= len2 || q == 1,
                len1 == s1v.len(),
                len2 == rcv.len(),
                len1 <= i32::MAX,
                len2 <= i32::MAX,
                diff_percent_limit <= 255,
                rcv == revcomp(r2@.seq),
                rc@ == rcv,
                s1v == r1@.seq,
                mo == min_overlap as int,
                dl == diff_limit as int,
                pct == diff_percent_limit as int,
                scan_best(s1v, rcv, mo, dl, pct, 0, Option::None) == scan_best(
                    s1v,
                    rcv,
                    mo,
                    dl,
                    pct,
                    len1 + q - 1,
                    best,
                ),
                best == (if found {
                    Option::Some(
                        OvBest { offset: best_offset as int, len: best_len as int, diff: best_diff as nat },
                    )
                } else {
                    Option::None::<OvBest>
                }),
                !found ==> best_offset == 0 && best_len == 0 && best_diff == usize::MAX,
            decreases len2 - q,
        {
            let ghost t: int = len1 as int + q as int - 1;
            let ghost o = cand_of(len1 as int, t);
            assert(o == -(q as int));
            let overlap_len: usize = if len2 - q <= len1 {
                len2 - q
            } else {
                len1
            };
            assert(overlap_len as int == cand_len(len1 as int, len2 as int, o));
            if overlap_len >= min_overlap {
                let diff = diff_from(&rc, q, &r1.seq, 0, overlap_len);
                proof {
                    lemma_mism_at_bounds(rcv, q as int, s1v, 0, overlap_len as int);
                }
                assert((overlap_len as u64) * (diff_percent_limit as u64) <= 0x7fffffffu64 * 255)
                    by (nonlinear_arith)
                    requires
                        overlap_len <= 0x7fffffff,
                        diff_percent_limit <= 255,
                ;
                let limit64: u64 = {
                    let frac = (overlap_len as u64) * (diff_percent_limit as u64) / 100;
                    if (diff_limit as u64) <= frac {
                        diff_limit as u64
                    } else {
                        frac
                    }
                };
                assert(limit64 as int == cand_limit(overlap_len as int, dl, pct));
                if (diff as u64) <= limit64 {
                    assert(cand_ok(s1v, rcv, o, mo, dl, pct));
                    if diff < best_diff || (diff == best_diff && overlap_len > best_len) {
                        best_diff = diff;
                        best_offset = 0i32 - (q as i32);
                        best_len = overlap_len;
                        found = true;
                        proof {
                            best = Option::Some(
                                OvBest { offset: o, len: overlap_len as int, diff: diff as nat },
                            );
                        }
                    } else {
                        assert(!ov_better(diff as nat, overlap_len as int, best));
                    }
                } else {
                    assert(!cand_ok(s1v, rcv, o, mo, dl, pct));
                }
            } else {
                assert(!cand_ok(s1v, rcv, o, mo, dl, pct));
            }
            q = q + 1;
        }

        proof {
            let t_end: int = len1 as int + q as int - 1;
            assert(t_end >= scan_total(s1v.len() as int, rcv.len() as int));
            assert(scan_best(s1v, rcv, mo, dl, pct, t_end, best) == best);
            assert(best_overlap(r1@.seq, r2@.seq, mo, dl, pct) == scan_best(
                s1v,
                rcv,
                mo,
                dl,
                pct,
                0,
                Option::None,
            ));
        }
        OverlapResult { overlapped: found, offset: best_offset, overlap_len: best_len, diff: best_diff }
    }
}

} // verus!
