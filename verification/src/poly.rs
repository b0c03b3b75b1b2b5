//! Poly-G and poly-X tail trimming: scan from the 3' end for a run of one
//! base, tolerating a bounded number of interlopers, and cut it off.

use vstd::prelude::*;
use crate::bases::BASE_G;
use crate::record::FastqRecord;
use crate::report::{RepV, Report};

verus! {

/// One interloper is allowed for every eight scanned bases.
pub const POLY_ALLOW_ONE_MISMATCH_FOR_EACH: usize = 8;

/// Never more than five interlopers in total.
pub const POLY_MAX_MISMATCH: usize = 5;

/// Walk the tail inward from position `idx` (counted from the 3' end) with
/// `mism` interlopers seen and `first` the leftmost position holding the
/// target so far.  Returns the last examined tail index and that leftmost
/// target position.
pub open spec fn poly_scan(
    seq: Seq<u8>,
    target: u8,
    min_len: int,
    idx: int,
    mism: int,
    first: int,
) -> (int, int)
    decreases seq.len() - idx,
{
    if idx < 0 || idx >= seq.len() {
        (idx - 1, first)
    } else {
        let c = seq[seq.len() - 1 - idx];
        let m2 = if c != target {
            mism + 1
        } else {
            mism
        };
        let f2 = if c == target {
            seq.len() - 1 - idx
        } else {
            first
        };
        if m2 > POLY_MAX_MISMATCH || (m2 > (idx + 1) / (POLY_ALLOW_ONE_MISMATCH_FOR_EACH as int)
            && idx + 1 >= min_len) {
            (idx, f2)
        } else {
            poly_scan(seq, target, min_len, idx + 1, m2, f2)
        }
    }
}

/// The whole scan, started at the very last base.
pub open spec fn poly_result(seq: Seq<u8>, target: u8, min_len: int) -> (int, int) {
    poly_scan(seq, target, min_len, 0, 0, seq.len() as int)
}

/// Length kept after the trim: everything from the leftmost target of the
/// run onward goes, provided the scan covered at least `min_len` bases and
/// saw the target at all.
pub open spec fn poly_new_len(seq: Seq<u8>, target: u8, min_len: int) -> int {
    let r = poly_result(seq, target, min_len);
    if r.0 >= min_len && r.1 < seq.len() {
        r.1
    } else {
        seq.len() as int
    }
}

/// Counter change of a poly-G trim on a read with the given bases.
pub open spec fn polyg_delta(seq: Seq<u8>, min_len: int) -> RepV {
    let nl = poly_new_len(seq, BASE_G, min_len);
    if nl < seq.len() {
        RepV {
            poly_g_trimmed_reads: 1,
            poly_g_trimmed_bases: (seq.len() - nl) as nat,
            ..RepV::zero()
        }
    } else {
        RepV::zero()
    }
}

/// Length kept after a poly-X trim: the target is whatever base ends the
/// read.
pub open spec fn polyx_new_len(seq: Seq<u8>, min_len: int) -> int {
    if seq.len() == 0 {
        0
    } else {
        poly_new_len(seq, seq[seq.len() - 1], min_len)
    }
}

/// Counter change of a poly-X trim on a read with the given bases.
pub open spec fn polyx_delta(seq: Seq<u8>, min_len: int) -> RepV {
    let nl = polyx_new_len(seq, min_len);
    if nl < seq.len() {
        RepV {
            poly_x_trimmed_reads: 1,
            poly_x_trimmed_bases: (seq.len() - nl) as nat,
            ..RepV::zero()
        }
    } else {
        RepV::zero()
    }
}

/// Run the tail scan for `target` over the record's bases.  Returns the
/// last examined tail index and the leftmost target position, as the spec
/// scan names them.
fn scan_tail(seq: &Vec<u8>, target: u8, min_len: usize) -> (r: (usize, usize))
    requires
        seq@.len() >= 1,
    ensures
        r.0 as int == poly_result(seq@, target, min_len as int).0,
        r.1 as int == poly_result(seq@, target, min_len as int).1,
        r.1 <= seq@.len(),
{
    let rlen = seq.len();
    let mut mism: usize = 0;
    let mut first: usize = rlen;
    let mut i: usize = 0;
    let mut check: usize = 0;
    let mut stopped = false;
    while check < rlen && !stopped
        invariant
            check <= rlen,
            rlen == seq@.len(),
            rlen >= 1,
            mism <= check,
            first <= rlen,
            i <= check,
            check > 0 ==> i == check - 1,
            !stopped ==> poly_scan(seq@, target, min_len as int, 0, 0, rlen as int) == poly_scan(
                seq@,
                target,
                min_len as int,
                check as int,
                mism as int,
                first as int,
            ),
            stopped ==> poly_scan(seq@, target, min_len as int, 0, 0, rlen as int) == (
                i as int,
                first as int,
            ),
        decreases rlen - check,
    {
        i = check;
        let c = seq[rlen - 1 - check];
        if c != target {
            mism = mism + 1;
        } else {
            first = rlen - 1 - check;
        }
        let allowed = (check + 1) / POLY_ALLOW_ONE_MISMATCH_FOR_EACH;
        if mism > POLY_MAX_MISMATCH || (mism > allowed && check + 1 >= min_len) {
            stopped = true;
        }
        check = check + 1;
    }
    if !stopped {
        assert(check == rlen);
        assert(poly_scan(seq@, target, min_len as int, check as int, mism as int, first as int)
            == (rlen - 1, first as int));
        assert(i == rlen - 1);
    }
    (i, first)
}

pub struct PolyGTrimmer;

impl PolyGTrimmer {
    /// Trim a poly-G tail: if the scan from the 3' end covers at least
    /// `min_len` bases and saw a G, cut at the leftmost G of the run and
    /// count the removed bases.
    pub fn trim_poly_g(rec: &mut FastqRecord, min_len: usize, report: &mut Report)
        requires
            old(rec).wf(),
            old(report)@.add(polyg_delta(old(rec)@.seq, min_len as int)).fits(),
        ensures
            final(rec)@.name == old(rec)@.name,
            final(rec)@.plus == old(rec)@.plus,
            final(rec)@.seq == old(rec)@.seq.take(poly_new_len(old(rec)@.seq, BASE_G, min_len as int)),
            final(rec)@.qual == old(rec)@.qual.take(
                poly_new_len(old(rec)@.seq, BASE_G, min_len as int),
            ),
            final(report)@ == old(report)@.add(polyg_delta(old(rec)@.seq, min_len as int)),
            final(rec).wf(),
    {
        let ghost sv = rec@.seq;
        let rlen = rec.seq.len();
        if rlen == 0 {
            assert(rec@.seq =~= sv.take(poly_new_len(sv, BASE_G, min_len as int)));
            assert(rec@.qual =~= rec@.qual.take(poly_new_len(sv, BASE_G, min_len as int)));
            assert(report@ == report@.add(polyg_delta(sv, min_len as int)));
            return ;
        }
        let (i, first) = scan_tail(&rec.seq, BASE_G, min_len);
        if i >= min_len && first < rlen {
            let trimmed = rlen - first;
            rec.seq.truncate(first);
            rec.qual.truncate(first);
            report.poly_g_trimmed_reads = report.poly_g_trimmed_reads + 1;
            report.poly_g_trimmed_bases = report.poly_g_trimmed_bases + (trimmed as u64);
        } else {
            assert(rec@.seq =~= sv.take(poly_new_len(sv, BASE_G, min_len as int)));
            assert(rec@.qual =~= rec@.qual.take(poly_new_len(sv, BASE_G, min_len as int)));
            assert(report@ == report@.add(polyg_delta(sv, min_len as int)));
        }
    }
}

pub struct PolyXTrimmer;

impl PolyXTrimmer {
    /// Trim a tail run of whatever base the read ends with, under the same
    /// tolerance rules as the poly-G trim.
    pub fn trim_poly_x(rec: &mut FastqRecord, min_len: usize, report: &mut Report)
        requires
            old(rec).wf(),
            old(report)@.add(polyx_delta(old(rec)@.seq, min_len as int)).fits(),
        ensures
            final(rec)@.name == old(rec)@.name,
            final(rec)@.plus == old(rec)@.plus,
            final(rec)@.seq == old(rec)@.seq.take(polyx_new_len(old(rec)@.seq, min_len as int)),
            final(rec)@.qual == old(rec)@.qual.take(polyx_new_len(old(rec)@.seq, min_len as int)),
            final(report)@ == old(report)@.add(polyx_delta(old(rec)@.seq, min_len as int)),
            final(rec).wf(),
    {
        let ghost sv = rec@.seq;
        let rlen = rec.seq.len();
        if rlen == 0 {
            assert(rec@.seq =~= sv.take(polyx_new_len(sv, min_len as int)));
            assert(rec@.qual =~= rec@.qual.take(polyx_new_len(sv, min_len as int)));
            assert(report@ == report@.add(polyx_delta(sv, min_len as int)));
            return ;
        }
        let target = rec.seq[rlen - 1];
        let (i, first) = scan_tail(&rec.seq, target, min_len);
        if i >= min_len && first < rlen {
            let trimmed = rlen - first;
            rec.seq.truncate(first);
            rec.qual.truncate(first);
            report.poly_x_trimmed_reads = report.poly_x_trimmed_reads + 1;
            report.poly_x_trimmed_bases = report.poly_x_trimmed_bases + (trimmed as u64);
        } else {
            assert(rec@.seq =~= sv.take(polyx_new_len(sv, min_len as int)));
            assert(rec@.qual =~= rec@.qual.take(polyx_new_len(sv, min_len as int)));
            assert(report@ == report@.add(polyx_delta(sv, min_len as int)));
        }
    }
}

} // verus!
