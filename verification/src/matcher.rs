//! One-gap alignment: does a sequence match a reference once a single
//! inserted base is skipped?

use vstd::prelude::*;
use crate::bases::{lemma_mism_at_bounds, lemma_mism_at_front, mism_at};

verus! {

/// There is an insertion index `k` splitting the comparison window so that
/// the mismatches of `ins[0..k]` against `nrm[0..k]` plus those of
/// `ins[k+1..cmplen+1]` against `nrm[k..cmplen]` stay within `limit`.
pub open spec fn one_insertion_match(ins: Seq<u8>, nrm: Seq<u8>, cmplen: int, limit: int) -> bool {
    exists|k: int|
        1 <= k < cmplen && mism_at(ins, 0, nrm, 0, k) + mism_at(ins, k + 1, nrm, k, cmplen - k)
            <= limit
}

pub struct Matcher;

impl Matcher {
    /// Decide whether `ins_data` matches `normal_data` over a window of
    /// `cmplen` bases under exactly one insertion in `ins_data`, with at
    /// most `diff_limit` further mismatches.  Inputs too short for the
    /// window never match.
    pub fn match_with_one_insertion(
        ins_data: &[u8],
        normal_data: &[u8],
        cmplen: usize,
        diff_limit: usize,
    ) -> (r: bool)
        requires
            cmplen >= 1,
        ensures
            r == (ins_data@.len() > cmplen && normal_data@.len() >= cmplen && one_insertion_match(
                ins_data@,
                normal_data@,
                cmplen as int,
                diff_limit as int,
            )),
    {
        if ins_data.len() <= cmplen || normal_data.len() < cmplen {
            return false;
        }
        let ins = ins_data;
        let nrm = normal_data;

        // Prefix mismatch counts: left[j] covers the first j + 1 positions.
        let mut left: Vec<usize> = Vec::new();
        let mut j: usize = 0;
        while j < cmplen
            invariant
                j <= cmplen,
                cmplen < ins@.len(),
                cmplen <= nrm@.len(),
                left@.len() == j,
                forall|t: int|
                    0 <= t < j ==> #[trigger] left@[t] == mism_at(ins@, 0, nrm@, 0, t + 1),
            decreases cmplen - j,
        {
            proof {
                lemma_mism_at_bounds(ins@, 0, nrm@, 0, j as int);
            }
            let prev: usize = if j == 0 {
                0
            } else {
                left[j - 1]
            };
            let cur: usize = if ins[j] == nrm[j] {
                prev
            } else {
                prev + 1
            };
            assert(mism_at(ins@, 0, nrm@, 0, j + 1) == mism_at(ins@, 0, nrm@, 0, j as int) + if ins@[
                j as int
            ] == nrm@[j as int] {
                0nat
            } else {
                1nat
            });
            left.push(cur);
            j = j + 1;
        }

        // Scan insertion points from the right, keeping the suffix mismatch
        // count of `ins[k+1..cmplen+1]` against `nrm[k..cmplen]`.
        let mut k: usize = cmplen - 1;
        let mut right: usize = if ins[cmplen] == nrm[cmplen - 1] {
            0
        } else {
            1
        };
        assert(mism_at(ins@, cmplen as int, nrm@, cmplen - 1, 0) == 0);
        assert(right == mism_at(ins@, cmplen as int, nrm@, cmplen - 1, 1));
        while k >= 1
            invariant
                k <= cmplen - 1,
                cmplen < ins@.len(),
                cmplen <= nrm@.len(),
                ins@ == ins_data@,
                nrm@ == normal_data@,
                left@.len() == cmplen,
                forall|t: int|
                    0 <= t < cmplen ==> #[trigger] left@[t] == mism_at(ins@, 0, nrm@, 0, t + 1),
                right == mism_at(ins@, k + 1, nrm@, k as int, cmplen - k),
                right <= cmplen - k,
                forall|t: int|
                    k < t < cmplen ==> !(mism_at(ins@, 0, nrm@, 0, t) + mism_at(
                        ins@,
                        t + 1,
                        nrm@,
                        t,
                        cmplen - t,
                    ) <= diff_limit),
            decreases k,
        {
            proof {
                lemma_mism_at_bounds(ins@, 0, nrm@, 0, k as int);
            }
            let lpart: usize = if k == 0 {
                0
            } else {
                left[k - 1]
            };
            if lpart + right <= diff_limit {
                proof {
                    let kk = k as int;
                    assert(left@[kk - 1] == mism_at(ins@, 0, nrm@, 0, kk));
                    assert(lpart == mism_at(ins@, 0, nrm@, 0, kk));
                    assert(mism_at(ins@, 0, nrm@, 0, kk) + mism_at(
                        ins@,
                        kk + 1,
                        nrm@,
                        kk,
                        cmplen - kk,
                    ) <= diff_limit as int);
                    assert(one_insertion_match(ins@, nrm@, cmplen as int, diff_limit as int));
                }
                return true;
            }
            proof {
                lemma_mism_at_front(ins@, k as int, nrm@, k - 1, cmplen - (k - 1));
            }
            right = if ins[k] == nrm[k - 1] {
                right
            } else {
                right + 1
            };
            k = k - 1;
        }
        assert(forall|t: int|
            1 <= t < cmplen ==> !(mism_at(ins@, 0, nrm@, 0, t) + mism_at(
                ins@,
                t + 1,
                nrm@,
                t,
                cmplen - t,
            ) <= diff_limit));
        false
    }
}

} // verus!
