//! Paired-end base correction: inside a detected overlap, a disagreeing
//! base is rewritten to the mate's higher-quality call.

use vstd::prelude::*;
use crate::bases::{comp, phred, BASE_A, BASE_C, BASE_G, BASE_N, BASE_T};
use crate::record::FastqRecord;

verus! {

/// During correction, position `p` of read one faces position `b - (p - a)`
/// of read two, where `a` is the first r1 position of the overlap and `b`
/// the r2 position facing it.
pub open spec fn mate_ix(a: int, b: int, p: int) -> int {
    b - (p - a)
}

/// The two calls disagree at r1 position `p`.
pub open spec fn corr_clash(s1: Seq<u8>, s2: Seq<u8>, a: int, b: int, p: int) -> bool {
    s1[p] != comp(s2[mate_ix(a, b, p)])
}

/// Read one loses at `p`: the calls disagree and r2 has the strictly higher
/// quality.
pub open spec fn corr_r1_loses(
    s1: Seq<u8>,
    q1: Seq<u8>,
    s2: Seq<u8>,
    q2: Seq<u8>,
    a: int,
    b: int,
    p: int,
) -> bool {
    corr_clash(s1, s2, a, b, p) && phred(q1[p]) < phred(q2[mate_ix(a, b, p)])
}

/// Read two loses at its position `j`: the calls disagree and r1's quality
/// is at least as high.
pub open spec fn corr_r2_loses(
    s1: Seq<u8>,
    q1: Seq<u8>,
    s2: Seq<u8>,
    q2: Seq<u8>,
    a: int,
    b: int,
    j: int,
) -> bool {
    corr_clash(s1, s2, a, b, a + (b - j)) && phred(q1[a + (b - j)]) >= phred(q2[j])
}

/// Bases of read one after correcting the first `n` overlap positions.
pub open spec fn corr_s1(
    s1: Seq<u8>,
    q1: Seq<u8>,
    s2: Seq<u8>,
    q2: Seq<u8>,
    a: int,
    b: int,
    n: int,
) -> Seq<u8> {
    Seq::new(
        s1.len(),
        |p: int|
            if a <= p < a + n && corr_r1_loses(s1, q1, s2, q2, a, b, p) {
                comp(s2[mate_ix(a, b, p)])
            } else {
                s1[p]
            },
    )
}

/// Qualities of read one after correcting the first `n` overlap positions.
pub open spec fn corr_q1(
    s1: Seq<u8>,
    q1: Seq<u8>,
    s2: Seq<u8>,
    q2: Seq<u8>,
    a: int,
    b: int,
    n: int,
) -> Seq<u8> {
    Seq::new(
        q1.len(),
        |p: int|
            if a <= p < a + n && corr_r1_loses(s1, q1, s2, q2, a, b, p) {
                q2[mate_ix(a, b, p)]
            } else {
                q1[p]
            },
    )
}

/// Bases of read two after correcting the first `n` overlap positions.
pub open spec fn corr_s2(
    s1: Seq<u8>,
    q1: Seq<u8>,
    s2: Seq<u8>,
    q2: Seq<u8>,
    a: int,
    b: int,
    n: int,
) -> Seq<u8> {
    Seq::new(
        s2.len(),
        |j: int|
            if b - n < j <= b && corr_r2_loses(s1, q1, s2, q2, a, b, j) {
                comp(s1[a + (b - j)])
            } else {
                s2[j]
            },
    )
}

/// Qualities of read two after correcting the first `n` overlap positions.
pub open spec fn corr_q2(
    s1: Seq<u8>,
    q1: Seq<u8>,
    s2: Seq<u8>,
    q2: Seq<u8>,
    a: int,
    b: int,
    n: int,
) -> Seq<u8> {
    Seq::new(
        q2.len(),
        |j: int|
            if b - n < j <= b && corr_r2_loses(s1, q1, s2, q2, a, b, j) {
                q1[a + (b - j)]
            } else {
                q2[j]
            },
    )
}

/// First r1 position of the overlap window for a given offset.
pub open spec fn corr_a(offset: int) -> int {
    if offset >= 0 {
        offset
    } else {
        0
    }
}

/// The r2 position facing that first r1 position.
pub open spec fn corr_b(offset: int, len2: int) -> int {
    if offset >= 0 {
        len2 - 1
    } else {
        len2 - 1 + offset
    }
}

pub fn complement(b: u8) -> (r: u8)
    ensures
        r == comp(b),
{
    if b == BASE_A {
        BASE_T
    } else if b == BASE_T {
        BASE_A
    } else if b == BASE_C {
        BASE_G
    } else if b == BASE_G {
        BASE_C
    } else {
        BASE_N
    }
}

pub struct BaseCorrector;

impl BaseCorrector {
    /// Rewrite disagreeing bases inside the overlap window: at each facing
    /// pair of positions the lower-quality call takes the base (after
    /// complementing) and the quality of the higher-quality one.
    pub fn correct(r1: &mut FastqRecord, r2: &mut FastqRecord, offset: i32, overlap_len: usize)
        requires
            old(r1).wf(),
            old(r2).wf(),
            offset >= 0 ==> offset + overlap_len <= old(r1)@.seq.len() && overlap_len <= old(
                r2,
            )@.seq.len(),
            offset < 0 ==> (-(offset as int)) + overlap_len <= old(r2)@.seq.len() && overlap_len
                <= old(r1)@.seq.len(),
        ensures
            final(r1)@.name == old(r1)@.name,
            final(r1)@.plus == old(r1)@.plus,
            final(r2)@.name == old(r2)@.name,
            final(r2)@.plus == old(r2)@.plus,
            final(r1)@.seq == corr_s1(
                old(r1)@.seq,
                old(r1)@.qual,
                old(r2)@.seq,
                old(r2)@.qual,
                corr_a(offset as int),
                corr_b(offset as int, old(r2)@.seq.len() as int),
                overlap_len as int,
            ),
            final(r1)@.qual == corr_q1(
                old(r1)@.seq,
                old(r1)@.qual,
                old(r2)@.seq,
                old(r2)@.qual,
                corr_a(offset as int),
                corr_b(offset as int, old(r2)@.seq.len() as int),
                overlap_len as int,
            ),
            final(r2)@.seq == corr_s2(
                old(r1)@.seq,
                old(r1)@.qual,
                old(r2)@.seq,
                old(r2)@.qual,
                corr_a(offset as int),
                corr_b(offset as int, old(r2)@.seq.len() as int),
                overlap_len as int,
            ),
            final(r2)@.qual == corr_q2(
                old(r1)@.seq,
                old(r1)@.qual,
                old(r2)@.seq,
                old(r2)@.qual,
                corr_a(offset as int),
                corr_b(offset as int, old(r2)@.seq.len() as int),
                overlap_len as int,
            ),
            final(r1).wf(),
            final(r2).wf(),
    {
        let ghost s1o = r1@.seq;
        let ghost q1o = r1@.qual;
        let ghost s2o = r2@.seq;
        let ghost q2o = r2@.qual;
        let ghost ga = corr_a(offset as int);
        let ghost gb = corr_b(offset as int, s2o.len() as int);

        if overlap_len == 0 {
            assert(r1@.seq =~= corr_s1(s1o, q1o, s2o, q2o, ga, gb, 0));
            assert(r1@.qual =~= corr_q1(s1o, q1o, s2o, q2o, ga, gb, 0));
            assert(r2@.seq =~= corr_s2(s1o, q1o, s2o, q2o, ga, gb, 0));
            assert(r2@.qual =~= corr_q2(s1o, q1o, s2o, q2o, ga, gb, 0));
            return ;
        }
        let len1 = r1.seq.len();
        let len2 = r2.seq.len();
        assert(s1o.len() == len1 && s2o.len() == len2);
        let a: usize = if offset >= 0 {
            offset as usize
        } else {
            0
        };
        let b: usize = if offset >= 0 {
            len2 - 1
        } else {
            let k: usize = (-(offset as i64)) as usize;
            len2 - 1 - k
        };
        assert(a == ga && b == gb);

        let mut i: usize = 0;
        assert(r1@.seq =~= corr_s1(s1o, q1o, s2o, q2o, ga, gb, 0));
        assert(r1@.qual =~= corr_q1(s1o, q1o, s2o, q2o, ga, gb, 0));
        assert(r2@.seq =~= corr_s2(s1o, q1o, s2o, q2o, ga, gb, 0));
        assert(r2@.qual =~= corr_q2(s1o, q1o, s2o, q2o, ga, gb, 0));
        while i < overlap_len
            invariant
                0 <= i <= overlap_len,
                a == ga,
                b == gb,
                a + overlap_len <= s1o.len() <= usize::MAX,
                overlap_len <= b + 1 <= s2o.len() <= usize::MAX,
                s1o.len() == q1o.len(),
                s2o.len() == q2o.len(),
                r1@.name == old(r1)@.name,
                r1@.plus == old(r1)@.plus,
                r2@.name == old(r2)@.name,
                r2@.plus == old(r2)@.plus,
                s1o == old(r1)@.seq,
                q1o == old(r1)@.qual,
                s2o == old(r2)@.seq,
                q2o == old(r2)@.qual,
                r1@.seq == corr_s1(s1o, q1o, s2o, q2o, ga, gb, i as int),
                r1@.qual == corr_q1(s1o, q1o, s2o, q2o, ga, gb, i as int),
                r2@.seq == corr_s2(s1o, q1o, s2o, q2o, ga, gb, i as int),
                r2@.qual == corr_q2(s1o, q1o, s2o, q2o, ga, gb, i as int),
            decreases overlap_len - i,
        {
            let i1: usize = a + i;
            let j: usize = b - i;
            assert(r1@.seq[i1 as int] == s1o[i1 as int]);
            assert(r2@.seq[j as int] == s2o[j as int]);
            assert(r1@.qual[i1 as int] == q1o[i1 as int]);
            assert(r2@.qual[j as int] == q2o[j as int]);
            assert(mate_ix(ga, gb, i1 as int) == j);
            let b1 = r1.seq[i1];
            let b2 = r2.seq[j];
            let rc_b2 = complement(b2);
            if b1 != rc_b2 {
                let q1b = r1.qual[i1];
                let q2b = r2.qual[j];
                let q1v = if q1b >= 33 {
                    q1b - 33
                } else {
                    0
                };
                let q2v = if q2b >= 33 {
                    q2b - 33
                } else {
                    0
                };
                if q1v >= q2v {
                    let nb = complement(b1);
                    r2.seq.set(j, nb);
                    r2.qual.set(j, q1b);
                } else {
                    r1.seq.set(i1, rc_b2);
                    r1.qual.set(i1, q2b);
                }
            }
            proof {
                let ni = i + 1 as int;
                assert(r1@.seq =~= corr_s1(s1o, q1o, s2o, q2o, ga, gb, ni));
                assert(r1@.qual =~= corr_q1(s1o, q1o, s2o, q2o, ga, gb, ni));
                assert(r2@.seq =~= corr_s2(s1o, q1o, s2o, q2o, ga, gb, ni));
                assert(r2@.qual =~= corr_q2(s1o, q1o, s2o, q2o, ga, gb, ni));
            }
            i = i + 1;
        }
    }
}

} // verus!
