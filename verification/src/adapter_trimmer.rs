//! Adapter trimming by a known sequence: a position scan under a Hamming
//! budget, then two rescue passes that tolerate a single inserted base on
//! either side.

use vstd::prelude::*;
use vstd::slice::slice_subrange;
use crate::bases::{imin, lemma_mism_at_bounds, mism_at};
use crate::matcher::{one_insertion_match, Matcher};
use crate::record::FastqRecord;
use crate::report::{RepV, Report};

verus! {

/// An adapter shorter than this is never searched for.
pub const ADAPTER_MATCH_REQ: usize = 4;

/// One mismatch is allowed for every eight compared bases.
pub const ADAPTER_ONE_MISMATCH_FOR_EACH: usize = 8;

/// Longer adapters may begin before the read: the scan starts at a small
/// negative position.
pub open spec fn adapter_start(alen: int) -> int {
    if alen >= 16 {
        -4
    } else if alen >= 12 {
        -3
    } else if alen >= 8 {
        -2
    } else {
        0
    }
}

/// The adapter placed at position `p` matches the read under the plain
/// Hamming budget of one mismatch per eight compared bases.
pub open spec fn ham_ok(seq: Seq<u8>, ad: Seq<u8>, p: int) -> bool {
    let cmplen = imin(seq.len() - p, ad.len() as int);
    let lo = if p < 0 {
        -p
    } else {
        0
    };
    mism_at(ad, lo, seq, p + lo, cmplen - lo) <= cmplen / (ADAPTER_ONE_MISMATCH_FOR_EACH as int)
}

/// First position from `p` upward where the plain scan matches.
pub open spec fn find_hit1(seq: Seq<u8>, ad: Seq<u8>, p: int) -> Option<int>
    decreases seq.len() - p,
{
    if p >= seq.len() - (ADAPTER_MATCH_REQ as int) {
        Option::None
    } else if ham_ok(seq, ad, p) {
        Option::Some(p)
    } else {
        find_hit1(seq, ad, p + 1)
    }
}

/// The reduced mismatch budget of the one-gap passes.
pub open spec fn gap_limit(cmplen: int) -> int {
    if cmplen / (ADAPTER_ONE_MISMATCH_FOR_EACH as int) > 0 {
        cmplen / (ADAPTER_ONE_MISMATCH_FOR_EACH as int) - 1
    } else {
        0
    }
}

/// Window compared when the read carries the extra base.
pub open spec fn gap2_cmplen(rlen: int, alen: int, p: int) -> int {
    imin(rlen - p - 1, alen)
}

/// The read, from `p` on, matches the adapter under one insertion in the
/// read.
pub open spec fn gap2_ok(seq: Seq<u8>, ad: Seq<u8>, p: int) -> bool {
    one_insertion_match(
        seq.skip(p),
        ad,
        gap2_cmplen(seq.len() as int, ad.len() as int, p),
        gap_limit(gap2_cmplen(seq.len() as int, ad.len() as int, p)),
    )
}

/// First position from `p` upward where the read-insertion pass matches.
pub open spec fn find_hit2(seq: Seq<u8>, ad: Seq<u8>, p: int) -> Option<int>
    decreases seq.len() - p,
{
    if p >= seq.len() - (ADAPTER_MATCH_REQ as int) - 1 {
        Option::None
    } else if gap2_ok(seq, ad, p) {
        Option::Some(p)
    } else {
        find_hit2(seq, ad, p + 1)
    }
}

/// Window compared when the adapter carries the extra base.
pub open spec fn gap3_cmplen(rlen: int, alen: int, p: int) -> int {
    imin(rlen - p, alen - 1)
}

/// The read, from `p` on, matches the adapter under one insertion in the
/// adapter.
pub open spec fn gap3_ok(seq: Seq<u8>, ad: Seq<u8>, p: int) -> bool {
    one_insertion_match(
        ad,
        seq.skip(p),
        gap3_cmplen(seq.len() as int, ad.len() as int, p),
        gap_limit(gap3_cmplen(seq.len() as int, ad.len() as int, p)),
    )
}

/// First position from `p` upward where the adapter-insertion pass
/// matches.
pub open spec fn find_hit3(seq: Seq<u8>, ad: Seq<u8>, p: int) -> Option<int>
    decreases seq.len() - p,
{
    if p >= seq.len() - (ADAPTER_MATCH_REQ as int) {
        Option::None
    } else if gap3_ok(seq, ad, p) {
        Option::Some(p)
    } else {
        find_hit3(seq, ad, p + 1)
    }
}

/// Where the adapter is found, if anywhere: the plain scan wins, then the
/// read-insertion pass, then the adapter-insertion pass.
pub open spec fn adapter_hit(seq: Seq<u8>, ad: Seq<u8>) -> Option<int> {
    if ad.len() < ADAPTER_MATCH_REQ {
        Option::None
    } else if find_hit1(seq, ad, adapter_start(ad.len() as int)) is Some {
        find_hit1(seq, ad, adapter_start(ad.len() as int))
    } else if find_hit2(seq, ad, 0) is Some {
        find_hit2(seq, ad, 0)
    } else {
        find_hit3(seq, ad, 0)
    }
}

/// Bases kept once the hit is applied: none when the adapter covers the
/// read's start, otherwise everything before the hit.
pub open spec fn adapter_new_len(seq: Seq<u8>, ad: Seq<u8>) -> int {
    match adapter_hit(seq, ad) {
        Option::None => seq.len() as int,
        Option::Some(p) => if p < 0 {
            0
        } else {
            p
        },
    }
}

/// Counter change of one adapter-trimming attempt.
pub open spec fn adapter_delta(seq: Seq<u8>, ad: Seq<u8>) -> RepV {
    match adapter_hit(seq, ad) {
        Option::None => RepV::zero(),
        Option::Some(p) => RepV {
            adapter_trimmed_reads: 1,
            adapter_trimmed_bases: (seq.len() - adapter_new_len(seq, ad)) as nat,
            ..RepV::zero()
        },
    }
}

/// The adapter sequence a caller handed over, as the search sees it: a
/// missing adapter searches like an empty one, which never matches.
pub open spec fn adapter_view(ad: Option<&Vec<u8>>) -> Seq<u8> {
    match ad {
        Option::None => Seq::empty(),
        Option::Some(a) => a@,
    }
}

/// Plain position scan.  Returns the first hit at or after the start
/// position for this adapter length.
fn find_exact(seq: &Vec<u8>, ad: &Vec<u8>) -> (r: Option<i64>)
    requires
        ad@.len() >= ADAPTER_MATCH_REQ,
        seq@.len() <= i64::MAX / 4,
        ad@.len() <= i64::MAX / 4,
    ensures
        ({
            let spec_r = find_hit1(seq@, ad@, adapter_start(ad@.len() as int));
            match r {
                Option::None => spec_r is None,
                Option::Some(p) => spec_r == Option::Some(p as int) && -4 <= p && (p as int)
                    < seq@.len() - 4,
            }
        }),
{
    let rlen = seq.len();
    let alen = ad.len();
    let start: i64 = if alen >= 16 {
        -4
    } else if alen >= 12 {
        -3
    } else if alen >= 8 {
        -2
    } else {
        0
    };
    let end1: i64 = rlen as i64 - ADAPTER_MATCH_REQ as i64;
    let mut p: i64 = start;
    while p < end1
        invariant
            start <= p,
            p <= end1 || p == start,
            end1 == rlen as i64 - 4,
            rlen == seq@.len(),
            alen == ad@.len(),
            alen >= 4,
            rlen <= i64::MAX / 4,
            alen <= i64::MAX / 4,
            adapter_start(alen as int) == start as int,
            find_hit1(seq@, ad@, start as int) == find_hit1(seq@, ad@, p as int),
        decreases end1 - p,
    {
        let cmplen: usize = if rlen as i64 - p <= alen as i64 {
            (rlen as i64 - p) as usize
        } else {
            alen
        };
        let lo: usize = if p < 0 {
            (-p) as usize
        } else {
            0
        };
        assert(cmplen as int == imin(seq@.len() - p as int, ad@.len() as int));
        assert(lo <= 4 && lo <= cmplen);
        let allowed = cmplen / ADAPTER_ONE_MISMATCH_FOR_EACH;
        let base: usize = (p + lo as i64) as usize;
        let mism = crate::overlap::diff_from(ad, lo, seq, base, cmplen - lo);
        if mism <= allowed {
            assert(ham_ok(seq@, ad@, p as int));
            return Option::Some(p);
        }
        assert(!ham_ok(seq@, ad@, p as int));
        p = p + 1;
    }
    Option::None
}

/// One-gap rescue pass.  When `gap_in_read` is set the read carries the
/// extra base, otherwise the adapter does.
fn find_gap(seq: &Vec<u8>, ad: &Vec<u8>, gap_in_read: bool) -> (r: Option<usize>)
    requires
        ad@.len() >= ADAPTER_MATCH_REQ,
        seq@.len() <= i64::MAX / 4,
        ad@.len() <= i64::MAX / 4,
    ensures
        ({
            let spec_r = if gap_in_read {
                find_hit2(seq@, ad@, 0)
            } else {
                find_hit3(seq@, ad@, 0)
            };
            match r {
                Option::None => spec_r is None,
                Option::Some(p) => spec_r == Option::Some(p as int) && (p as int) < seq@.len() - 4,
            }
        }),
{
    let rlen = seq.len();
    let alen = ad.len();
    let bound: usize = if gap_in_read {
        ADAPTER_MATCH_REQ + 1
    } else {
        ADAPTER_MATCH_REQ
    };
    if rlen <= bound {
        assert(gap_in_read ==> find_hit2(seq@, ad@, 0) is None);
        assert(!gap_in_read ==> find_hit3(seq@, ad@, 0) is None);
        return Option::None;
    }
    let end: usize = rlen - bound;
    let mut p: usize = 0;
    while p < end
        invariant
            p <= end,
            end == rlen - bound,
            bound == if gap_in_read {
                5usize
            } else {
                4usize
            },
            rlen == seq@.len(),
            alen == ad@.len(),
            alen >= 4,
            rlen > bound,
            gap_in_read ==> find_hit2(seq@, ad@, 0) == find_hit2(seq@, ad@, p as int),
            !gap_in_read ==> find_hit3(seq@, ad@, 0) == find_hit3(seq@, ad@, p as int),
        decreases end - p,
    {
        let cmplen: usize = if gap_in_read {
            if rlen - p - 1 <= alen {
                rlen - p - 1
            } else {
                alen
            }
        } else {
            if rlen - p <= alen - 1 {
                rlen - p
            } else {
                alen - 1
            }
        };
        let budget = cmplen / ADAPTER_ONE_MISMATCH_FOR_EACH;
        let allowed: usize = if budget > 0 {
            budget - 1
        } else {
            0
        };
        let tail = slice_subrange(seq.as_slice(), p, rlen);
        assert(tail@ =~= seq@.skip(p as int));
        let matched = if gap_in_read {
            assert(cmplen as int == gap2_cmplen(rlen as int, alen as int, p as int));
            Matcher::match_with_one_insertion(tail, ad.as_slice(), cmplen, allowed)
        } else {
            assert(cmplen as int == gap3_cmplen(rlen as int, alen as int, p as int));
            Matcher::match_with_one_insertion(ad.as_slice(), tail, cmplen, allowed)
        };
        if matched {
            proof {
                if gap_in_read {
                    assert(tail@.len() > cmplen && ad@.len() >= cmplen);
                    assert(gap2_ok(seq@, ad@, p as int));
                } else {
                    assert(gap3_ok(seq@, ad@, p as int));
                }
            }
            return Option::Some(p);
        }
        proof {
            if gap_in_read {
                assert(tail@.len() > cmplen && ad@.len() >= cmplen);
                assert(!gap2_ok(seq@, ad@, p as int));
            } else {
                assert(ad@.len() > cmplen && tail@.len() >= cmplen);
                assert(!gap3_ok(seq@, ad@, p as int));
            }
        }
        p = p + 1;
    }
    Option::None
}

pub struct AdapterTrimmer;

impl AdapterTrimmer {
    /// Search for the adapter and cut the read at the hit: a hit before the
    /// read's start empties it, any other hit truncates it there.  Returns
    /// whether anything was trimmed.
    pub fn trim_by_sequence(
        rec: &mut FastqRecord,
        adapter_seq: Option<&Vec<u8>>,
        report: &mut Report,
        _is_r2: bool,
    ) -> (r: bool)
        requires
            old(rec).wf(),
            old(rec)@.seq.len() <= i64::MAX / 4,
            adapter_seq is Some ==> adapter_seq->0@.len() <= i64::MAX / 4,
            old(report)@.add(adapter_delta(old(rec)@.seq, adapter_view(adapter_seq))).fits(),
        ensures
            final(rec)@.name == old(rec)@.name,
            final(rec)@.plus == old(rec)@.plus,
            final(rec)@.seq == old(rec)@.seq.take(
                adapter_new_len(old(rec)@.seq, adapter_view(adapter_seq)),
            ),
            final(rec)@.qual == old(rec)@.qual.take(
                adapter_new_len(old(rec)@.seq, adapter_view(adapter_seq)),
            ),
            final(report)@ == old(report)@.add(
                adapter_delta(old(rec)@.seq, adapter_view(adapter_seq)),
            ),
            r == (adapter_hit(old(rec)@.seq, adapter_view(adapter_seq)) is Some),
            final(rec).wf(),
    {
        let ghost sv = rec@.seq;
        let ghost adv = adapter_view(adapter_seq);
        let adapter = match adapter_seq {
            Option::Some(a) => a,
            Option::None => {
                assert(adapter_hit(sv, adv) is None);
                assert(rec@.seq =~= sv.take(adapter_new_len(sv, adv)));
                assert(rec@.qual =~= rec@.qual.take(adapter_new_len(sv, adv)));
                assert(report@ == report@.add(adapter_delta(sv, adv)));
                return false;
            },
        };
        let rlen = rec.seq.len();
        let alen = adapter.len();
        if alen < ADAPTER_MATCH_REQ {
            assert(adapter_hit(sv, adv) is None);
            assert(rec@.seq =~= sv.take(adapter_new_len(sv, adv)));
            assert(rec@.qual =~= rec@.qual.take(adapter_new_len(sv, adv)));
            assert(report@ == report@.add(adapter_delta(sv, adv)));
            return false;
        }

        let mut hit_neg = false;
        let mut hit = false;
        let mut pos: usize = 0;
        match find_exact(&rec.seq, adapter) {
            Option::Some(p) => {
                hit = true;
                if p < 0 {
                    hit_neg = true;
                } else {
                    pos = p as usize;
                }
            },
            Option::None => {
                match find_gap(&rec.seq, adapter, true) {
                    Option::Some(p) => {
                        hit = true;
                        pos = p;
                    },
                    Option::None => {
                        match find_gap(&rec.seq, adapter, false) {
                            Option::Some(p) => {
                                hit = true;
                                pos = p;
                            },
                            Option::None => {},
                        }
                    },
                }
            },
        }

        if hit {
            assert(adapter_hit(sv, adv) is Some);
            assert(adapter_new_len(sv, adv) == if hit_neg {
                0int
            } else {
                pos as int
            });
            if hit_neg {
                let trimmed = rec.seq.len();
                rec.seq.clear();
                rec.qual.clear();
                report.adapter_trimmed_reads = report.adapter_trimmed_reads + 1;
                report.adapter_trimmed_bases = report.adapter_trimmed_bases + (trimmed as u64);
                assert(rec@.seq =~= sv.take(0));
                assert(rec@.qual =~= old(rec)@.qual.take(0));
            } else {
                let trimmed = rec.seq.len() - pos;
                rec.seq.truncate(pos);
                rec.qual.truncate(pos);
                report.adapter_trimmed_reads = report.adapter_trimmed_reads + 1;
                report.adapter_trimmed_bases = report.adapter_trimmed_bases + (trimmed as u64);
            }
            true
        } else {
            assert(adapter_hit(sv, adv) is None);
            assert(rec@.seq =~= sv.take(adapter_new_len(sv, adv)));
            assert(rec@.qual =~= rec@.qual.take(adapter_new_len(sv, adv)));
            assert(report@ == report@.add(adapter_delta(sv, adv)));
            false
        }
    }
}

} // verus!
