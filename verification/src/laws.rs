//! The library's general guarantees, proved once over the specification
//! functions that the executable contracts are stated with.

use vstd::prelude::*;
use crate::adapter_trimmer::{adapter_new_len, find_hit1, find_hit2, find_hit3, gap2_ok, gap3_ok, ham_ok};
use crate::base_correction::{corr_s1, corr_s2};
use crate::bases::{comp, is_base, lemma_mism_at_zero, mism_at, revcomp, BASE_A, BASE_C, BASE_G, BASE_N, BASE_T};
use crate::config::Cli;
use crate::filter::{
    adapter_stage, correction_stage, polyg_stage, polyx_stage, readthrough_stage, rec_passes,
    static_stage, trim_pair_spec, trim_record_spec,
};
use crate::overlap::{best_overlap, best_wf, cand_len, lemma_scan_best_wf, OvBest};
use crate::pipeline::{process_records, step_delta, step_out, entries_wf};
use crate::poly::{poly_new_len, poly_scan, polyx_new_len};
use crate::record::RecV;
use crate::report::RepV;
use crate::sliding_window::{
    first_bad, first_good_back, first_good_front, front_cut, right_cut, skip_n_back, skip_n_fwd,
    tail_cut, walk_good, window_result,
};

verus! {

// ---------------------------------------------------------------------
// Range facts about the search primitives, by induction on each scan.
// ---------------------------------------------------------------------

proof fn lemma_find_hit1_range(seq: Seq<u8>, ad: Seq<u8>, p: int)
    ensures
        find_hit1(seq, ad, p) is Some ==> p <= find_hit1(seq, ad, p)->0 < seq.len() - 4,
    decreases seq.len() - p,
{
    if !(p >= seq.len() - 4) {
        lemma_find_hit1_range(seq, ad, p + 1);
    }
}

proof fn lemma_find_hit2_range(seq: Seq<u8>, ad: Seq<u8>, p: int)
    ensures
        find_hit2(seq, ad, p) is Some ==> p <= find_hit2(seq, ad, p)->0 < seq.len() - 5,
    decreases seq.len() - p,
{
    if !(p >= seq.len() - 5) {
        lemma_find_hit2_range(seq, ad, p + 1);
    }
}

proof fn lemma_find_hit3_range(seq: Seq<u8>, ad: Seq<u8>, p: int)
    ensures
        find_hit3(seq, ad, p) is Some ==> p <= find_hit3(seq, ad, p)->0 < seq.len() - 4,
    decreases seq.len() - p,
{
    if !(p >= seq.len() - 4) {
        lemma_find_hit3_range(seq, ad, p + 1);
    }
}

/// The plain adapter scan returns the first qualifying position: the hit
/// qualifies and nothing before it does; a miss means nothing in range
/// qualifies.
pub proof fn lemma_find_hit1_first(seq: Seq<u8>, ad: Seq<u8>, p: int)
    ensures
        match find_hit1(seq, ad, p) {
            Option::Some(q) => ham_ok(seq, ad, q) && forall|t: int|
                p <= t < q ==> !#[trigger] ham_ok(seq, ad, t),
            Option::None => forall|t: int|
                p <= t < seq.len() - 4 ==> !#[trigger] ham_ok(seq, ad, t),
        },
    decreases seq.len() - p,
{
    if !(p >= seq.len() - 4) && !ham_ok(seq, ad, p) {
        lemma_find_hit1_first(seq, ad, p + 1);
    }
}

/// The read-insertion rescue pass returns its first qualifying position.
pub proof fn lemma_find_hit2_first(seq: Seq<u8>, ad: Seq<u8>, p: int)
    ensures
        match find_hit2(seq, ad, p) {
            Option::Some(q) => gap2_ok(seq, ad, q) && forall|t: int|
                p <= t < q ==> !#[trigger] gap2_ok(seq, ad, t),
            Option::None => forall|t: int|
                p <= t < seq.len() - 5 ==> !#[trigger] gap2_ok(seq, ad, t),
        },
    decreases seq.len() - p,
{
    if !(p >= seq.len() - 5) && !gap2_ok(seq, ad, p) {
        lemma_find_hit2_first(seq, ad, p + 1);
    }
}

/// The adapter-insertion rescue pass returns its first qualifying
/// position.
pub proof fn lemma_find_hit3_first(seq: Seq<u8>, ad: Seq<u8>, p: int)
    ensures
        match find_hit3(seq, ad, p) {
            Option::Some(q) => gap3_ok(seq, ad, q) && forall|t: int|
                p <= t < q ==> !#[trigger] gap3_ok(seq, ad, t),
            Option::None => forall|t: int|
                p <= t < seq.len() - 4 ==> !#[trigger] gap3_ok(seq, ad, t),
        },
    decreases seq.len() - p,
{
    if !(p >= seq.len() - 4) && !gap3_ok(seq, ad, p) {
        lemma_find_hit3_first(seq, ad, p + 1);
    }
}

/// The adapter trim never keeps more than the read.
pub proof fn lemma_adapter_new_len_range(seq: Seq<u8>, ad: Seq<u8>)
    ensures
        0 <= adapter_new_len(seq, ad) <= seq.len(),
{
    lemma_find_hit1_range(seq, ad, crate::adapter_trimmer::adapter_start(ad.len() as int));
    lemma_find_hit2_range(seq, ad, 0);
    lemma_find_hit3_range(seq, ad, 0);
}

proof fn lemma_poly_scan_range(seq: Seq<u8>, target: u8, min_len: int, idx: int, mism: int, first: int)
    requires
        0 <= first <= seq.len(),
    ensures
        0 <= poly_scan(seq, target, min_len, idx, mism, first).1 <= seq.len(),
    decreases seq.len() - idx,
{
    if !(idx < 0 || idx >= seq.len()) {
        let c = seq[seq.len() - 1 - idx];
        let m2 = if c != target {
            mism + 1
        } else {
            mism
        };
        let f2 = if c == target {
            seq.len() - 1 - idx
        } else {
            first
        };
        if !(m2 > 5 || (m2 > (idx + 1) / 8 && idx + 1 >= min_len)) {
            lemma_poly_scan_range(seq, target, min_len, idx + 1, m2, f2);
        }
    }
}

/// Poly trimming never keeps more than the read.
pub proof fn lemma_poly_new_len_range(seq: Seq<u8>, target: u8, min_len: int)
    ensures
        0 <= poly_new_len(seq, target, min_len) <= seq.len(),
        0 <= polyx_new_len(seq, min_len) <= seq.len(),
{
    lemma_poly_scan_range(seq, target, min_len, 0, 0, seq.len() as int);
    if seq.len() > 0 {
        lemma_poly_scan_range(seq, seq[seq.len() - 1], min_len, 0, 0, seq.len() as int);
    }
}

proof fn lemma_first_good_front_range(q: Seq<u8>, w: int, t: int, s: int)
    ensures
        first_good_front(q, w, t, s) is Some ==> s <= first_good_front(q, w, t, s)->0 <= q.len()
            - w,
    decreases q.len() - s,
{
    if !(w <= 0 || s > q.len() - w) {
        lemma_first_good_front_range(q, w, t, s + 1);
    }
}

proof fn lemma_first_bad_range(q: Seq<u8>, w: int, t: int, s: int)
    ensures
        first_bad(q, w, t, s) is Some ==> s <= first_bad(q, w, t, s)->0 <= q.len() - w,
    decreases q.len() - s,
{
    if !(w <= 0 || s > q.len() - w) {
        lemma_first_bad_range(q, w, t, s + 1);
    }
}

proof fn lemma_first_good_back_range(q: Seq<u8>, w: int, t: int, tpos: int)
    ensures
        first_good_back(q, w, t, tpos) is Some ==> w - 1 <= first_good_back(q, w, t, tpos)->0
            <= tpos,
    decreases tpos + 1,
{
    if !(w <= 0 || tpos < w - 1) {
        lemma_first_good_back_range(q, w, t, tpos - 1);
    }
}

proof fn lemma_skip_n_fwd_range(seq: Seq<u8>, s: int)
    requires
        0 <= s <= seq.len(),
    ensures
        s <= skip_n_fwd(seq, s) <= seq.len(),
    decreases seq.len() - s,
{
    if s < seq.len() && seq[s] == BASE_N {
        lemma_skip_n_fwd_range(seq, s + 1);
    }
}

proof fn lemma_skip_n_back_range(seq: Seq<u8>, t: int)
    requires
        t >= 0,
    ensures
        0 <= skip_n_back(seq, t) <= t,
    decreases t,
{
    if t > 0 && seq[t] == BASE_N {
        lemma_skip_n_back_range(seq, t - 1);
    }
}

proof fn lemma_walk_good_range(q: Seq<u8>, bt: u8, s: int)
    requires
        0 <= s <= q.len(),
    ensures
        s <= walk_good(q, bt, s) <= q.len(),
    decreases q.len() - s,
{
    if s < q.len() && q[s] >= bt {
        lemma_walk_good_range(q, bt, s + 1);
    }
}

proof fn lemma_front_cut_range(seq: Seq<u8>, qual: Seq<u8>, w: int, mq: int)
    requires
        seq.len() == qual.len(),
        w >= 1,
    ensures
        0 <= front_cut(seq, qual, w, mq) <= seq.len(),
{
    let l = seq.len() as int;
    if l >= w {
        lemma_first_good_front_range(qual, w, mq + 33, 0);
        match first_good_front(qual, w, mq + 33, 0) {
            Option::Some(s0) => {
                let s1 = if s0 > 0 {
                    s0 + w - 1
                } else {
                    0
                };
                lemma_skip_n_fwd_range(seq, s1);
            },
            Option::None => {},
        }
    }
}

proof fn lemma_right_cut_range(qs: Seq<u8>, w: int, mq: int)
    requires
        w >= 1,
    ensures
        0 <= right_cut(qs, w, mq) <= qs.len(),
{
    let cl = qs.len() as int;
    if cl >= w {
        lemma_first_bad_range(qs, w, mq + 33, 0);
        match first_bad(qs, w, mq + 33, 0) {
            Option::Some(bp) => {
                lemma_walk_good_range(qs, crate::sliding_window::byte_thresh(mq), bp);
            },
            Option::None => {},
        }
    }
}

proof fn lemma_tail_cut_range(ss: Seq<u8>, qs: Seq<u8>, w: int, mq: int)
    requires
        ss.len() == qs.len(),
        w >= 1,
    ensures
        0 <= tail_cut(ss, qs, w, mq) <= qs.len(),
{
    let cl = qs.len() as int;
    if cl >= w {
        lemma_first_good_back_range(qs, w, mq + 33, cl - 1);
        match first_good_back(qs, w, mq + 33, cl - 1) {
            Option::Some(t0) => {
                let t1 = if t0 < cl - 1 {
                    t0 + 1 - w
                } else {
                    t0
                };
                lemma_skip_n_back_range(ss, t1);
            },
            Option::None => {},
        }
    }
}

/// The sliding-window pass keeps the record well formed and never grows
/// it; header and separator stay.
pub proof fn lemma_window_wf(cfg: Cli, rv: RecV, front0: int)
    requires
        rv.wf(),
        cfg.wf(),
        0 <= front0 <= rv.seq.len(),
    ensures
        window_result(cfg, rv, front0).0.wf(),
        window_result(cfg, rv, front0).0.seq.len() <= rv.seq.len(),
        window_result(cfg, rv, front0).0.name == rv.name,
        window_result(cfg, rv, front0).0.plus == rv.plus,
        all_bases(rv.seq) ==> all_bases(window_result(cfg, rv, front0).0.seq),
{
    let l = rv.seq.len() as int;
    if cfg.cut_front {
        lemma_front_cut_range(
            rv.seq,
            rv.qual,
            cfg.cut_front_window_size as int,
            cfg.cut_front_mean_quality as int,
        );
    }
    let front = if cfg.cut_front {
        front_cut(rv.seq, rv.qual, cfg.cut_front_window_size as int, cfg.cut_front_mean_quality as int)
    } else {
        front0
    };
    if cfg.cut_right {
        lemma_right_cut_range(
            rv.qual.skip(front),
            cfg.cut_right_window_size as int,
            cfg.cut_right_mean_quality as int,
        );
    }
    if !cfg.cut_right && cfg.cut_tail {
        lemma_tail_cut_range(
            rv.seq.skip(front),
            rv.qual.skip(front),
            cfg.cut_tail_window_size as int,
            cfg.cut_tail_mean_quality as int,
        );
    }
}

/// The whole per-record transform keeps the record well formed and never
/// grows it; header and separator stay.
pub proof fn lemma_trim_record_wf(cfg: Cli, rv: RecV, is_r2: bool)
    requires
        rv.wf(),
        cfg.wf(),
    ensures
        trim_record_spec(cfg, rv, is_r2).0.wf(),
        trim_record_spec(cfg, rv, is_r2).0.seq.len() <= rv.seq.len(),
        trim_record_spec(cfg, rv, is_r2).0.name == rv.name,
        trim_record_spec(cfg, rv, is_r2).0.plus == rv.plus,
{
    let a = adapter_stage(cfg, rv, is_r2);
    let ad = if is_r2 {
        cfg.adapter_sequence_r2
    } else {
        cfg.adapter_sequence
    };
    if !cfg.disable_adapter_trimming && ad is Some {
        lemma_adapter_new_len_range(rv.seq, ad->0@);
    }
    assert(a.0.wf() && a.0.seq.len() <= rv.seq.len());
    let x = polyx_stage(cfg, a.0);
    lemma_poly_new_len_range(a.0.seq, BASE_G, cfg.poly_x_min_len as int);
    assert(x.0.wf() && x.0.seq.len() <= a.0.seq.len());
    let g = polyg_stage(cfg, x.0);
    lemma_poly_new_len_range(x.0.seq, BASE_G, cfg.poly_g_min_len as int);
    assert(g.0.wf() && g.0.seq.len() <= x.0.seq.len());
    lemma_window_wf(cfg, g.0, 0);
    let wres = window_result(cfg, g.0, 0);
    assert(static_stage(cfg, wres.0, is_r2).wf());
}

/// The whole per-pair transform keeps both records well formed.
pub proof fn lemma_trim_pair_wf(cfg: Cli, rv1: RecV, rv2: RecV)
    requires
        rv1.wf(),
        rv2.wf(),
        cfg.wf(),
    ensures
        trim_pair_spec(cfg, rv1, rv2).0.wf(),
        trim_pair_spec(cfg, rv1, rv2).1.wf(),
{
    let c = correction_stage(cfg, rv1, rv2);
    assert(c.0.wf() && c.1.wf());
    assert(c.0.seq.len() == rv1.seq.len() && c.1.seq.len() == rv2.seq.len());
    let t = readthrough_stage(cfg, rv1, rv2, c.0, c.1);
    lemma_scan_best_wf(
        rv1.seq,
        revcomp(rv2.seq),
        cfg.overlap_len_require as int,
        cfg.overlap_diff_limit as int,
        cfg.overlap_diff_percent_limit as int,
        0,
        Option::None,
    );
    assert(t.0.wf() && t.1.wf());
    lemma_trim_record_wf(cfg, t.0, false);
    lemma_trim_record_wf(cfg, t.1, true);
}

// ---------------------------------------------------------------------
// Order preservation.
// ---------------------------------------------------------------------

/// Processing a split stream equals processing its parts and joining the
/// outputs in order, with counters added.  Together with the ordered
/// joiner this says the output stream keeps the input record order no
/// matter how packs were distributed or interleaved.
#[verifier::rlimit(100)]
pub proof fn lemma_process_records_append(
    cfg: Cli,
    a: Seq<(RecV, Option<RecV>)>,
    b: Seq<(RecV, Option<RecV>)>,
)
    ensures
        process_records(cfg, a + b).0 == process_records(cfg, a).0 + process_records(cfg, b).0,
        process_records(cfg, a + b).1 == process_records(cfg, a).1.add(process_records(cfg, b).1),
    decreases b.len(),
{
    if b.len() == 0 {
        assert(a + b =~= a);
        assert(process_records(cfg, b).0 =~= Seq::<(RecV, Option<RecV>)>::empty());
        assert(process_records(cfg, a).0 + process_records(cfg, b).0 =~= process_records(
            cfg,
            a,
        ).0);
        assert(process_records(cfg, a).1.add(RepV::zero()) == process_records(cfg, a).1);
    } else {
        lemma_process_records_append(cfg, a, b.drop_last());
        assert((a + b).drop_last() =~= a + b.drop_last());
        assert((a + b).last() == b.last());
        assert(process_records(cfg, a).0 + process_records(cfg, b.drop_last()).0 + step_out(
            cfg,
            b.last(),
        ) =~= process_records(cfg, a).0 + (process_records(cfg, b.drop_last()).0 + step_out(
            cfg,
            b.last(),
        )));
    }
}

// ---------------------------------------------------------------------
// Counter additivity.
// ---------------------------------------------------------------------

/// Trimming counters move no reads between passed and failed.
proof fn lemma_trim_deltas_flow(cfg: Cli, rv: RecV, rv2: RecV, is_r2: bool)
    ensures
        trim_record_spec(cfg, rv, is_r2).1.total_reads == 0,
        trim_record_spec(cfg, rv, is_r2).1.passed_reads == 0,
        trim_record_spec(cfg, rv, is_r2).1.failed_too_short == 0,
        trim_record_spec(cfg, rv, is_r2).1.failed_low_quality == 0,
        trim_record_spec(cfg, rv, is_r2).1.failed_n_excess == 0,
        trim_record_spec(cfg, rv, is_r2).1.failed_low_average_qual == 0,
        trim_pair_spec(cfg, rv, rv2).2.total_reads == 0,
        trim_pair_spec(cfg, rv, rv2).2.passed_reads == 0,
        trim_pair_spec(cfg, rv, rv2).2.failed_too_short == 0,
        trim_pair_spec(cfg, rv, rv2).2.failed_low_quality == 0,
        trim_pair_spec(cfg, rv, rv2).2.failed_n_excess == 0,
        trim_pair_spec(cfg, rv, rv2).2.failed_low_average_qual == 0,
{
}

/// Every entry contributes exactly one total read, split once between
/// passed and the first failing predicate.
proof fn lemma_step_delta_consistent(cfg: Cli, p: (RecV, Option<RecV>))
    ensures
        step_delta(cfg, p).consistent(),
{
    reveal(step_delta);
    match p.1 {
        Option::Some(rv2) => {
            lemma_trim_deltas_flow(cfg, p.0, rv2, false);
        },
        Option::None => {
            lemma_trim_deltas_flow(cfg, p.0, p.0, false);
        },
    }
}

/// Counter additivity: over any stream, the total equals the passed
/// reads plus one failure per rejected read.
pub proof fn lemma_counters_additive(cfg: Cli, s: Seq<(RecV, Option<RecV>)>)
    ensures
        process_records(cfg, s).1.consistent(),
    decreases s.len(),
{
    if s.len() == 0 {
    } else {
        lemma_counters_additive(cfg, s.drop_last());
        lemma_step_delta_consistent(cfg, s.last());
    }
}

// ---------------------------------------------------------------------
// Length invariant.
// ---------------------------------------------------------------------

/// Every record in a processed stream is well formed and at least as
/// long as required.
pub open spec fn outputs_long_enough(cfg: Cli, t: Seq<(RecV, Option<RecV>)>) -> bool {
    forall|i: int|
        0 <= i < t.len() ==> {
            &&& (#[trigger] t[i]).0.wf()
            &&& t[i].0.seq.len() >= cfg.length_required
            &&& match t[i].1 {
                Option::Some(r) => r.wf() && r.seq.len() >= cfg.length_required,
                Option::None => true,
            }
        }
}

/// Length invariant: every emitted record carries one quality byte per
/// base and is at least `length_required` long.
pub proof fn lemma_length_invariant(cfg: Cli, s: Seq<(RecV, Option<RecV>)>)
    requires
        cfg.wf(),
        entries_wf(s),
    ensures
        outputs_long_enough(cfg, process_records(cfg, s).0),
    decreases s.len(),
{
    reveal(step_out);
    if s.len() > 0 {
        assert(entries_wf(s.drop_last())) by {
            assert(forall|i: int|
                0 <= i < s.drop_last().len() ==> s.drop_last()[i] == s[i]);
        }
        lemma_length_invariant(cfg, s.drop_last());
        let p = s.last();
        match p.1 {
            Option::Some(rv2) => {
                lemma_trim_pair_wf(cfg, p.0, rv2);
            },
            Option::None => {
                lemma_trim_record_wf(cfg, p.0, false);
            },
        }
        let prev = process_records(cfg, s.drop_last()).0;
        let o = step_out(cfg, p);
        assert forall|i: int|
            0 <= i < process_records(cfg, s).0.len() implies {
            &&& (#[trigger] process_records(cfg, s).0[i]).0.wf()
            &&& process_records(cfg, s).0[i].0.seq.len() >= cfg.length_required
            &&& match process_records(cfg, s).0[i].1 {
                Option::Some(r) => r.wf() && r.seq.len() >= cfg.length_required,
                Option::None => true,
            }
        } by {
            if i < prev.len() {
                assert(process_records(cfg, s).0[i] == prev[i]);
            } else {
                assert(process_records(cfg, s).0[i] == o[i - prev.len()]);
            }
        }
    }
}

// ---------------------------------------------------------------------
// Alphabet invariant.
// ---------------------------------------------------------------------

/// Every base lies in the working alphabet.
pub open spec fn all_bases(s: Seq<u8>) -> bool {
    forall|i: int| 0 <= i < s.len() ==> is_base(#[trigger] s[i])
}

/// A/C/G/T only.
pub open spec fn acgt(b: u8) -> bool {
    b == BASE_A || b == BASE_C || b == BASE_G || b == BASE_T
}

pub open spec fn all_acgt(s: Seq<u8>) -> bool {
    forall|i: int| 0 <= i < s.len() ==> acgt(#[trigger] s[i])
}

/// The per-record transforms only ever shorten the read: no base appears
/// that was not already there, so the alphabet is preserved.
pub proof fn lemma_trim_record_alphabet(cfg: Cli, rv: RecV, is_r2: bool)
    requires
        rv.wf(),
        cfg.wf(),
        all_bases(rv.seq),
    ensures
        all_bases(trim_record_spec(cfg, rv, is_r2).0.seq),
{
    lemma_trim_record_wf(cfg, rv, is_r2);
    let a = adapter_stage(cfg, rv, is_r2);
    let ad = if is_r2 {
        cfg.adapter_sequence_r2
    } else {
        cfg.adapter_sequence
    };
    if !cfg.disable_adapter_trimming && ad is Some {
        lemma_adapter_new_len_range(rv.seq, ad->0@);
    }
    assert(all_bases(a.0.seq));
    let x = polyx_stage(cfg, a.0);
    lemma_poly_new_len_range(a.0.seq, BASE_G, cfg.poly_x_min_len as int);
    assert(all_bases(x.0.seq));
    let g = polyg_stage(cfg, x.0);
    lemma_poly_new_len_range(x.0.seq, BASE_G, cfg.poly_g_min_len as int);
    assert(all_bases(g.0.seq));
    lemma_window_wf(cfg, g.0, 0);
    let wres = window_result(cfg, g.0, 0);
    assert(all_bases(static_stage(cfg, wres.0, is_r2).seq));
}

/// Base correction writes only complements: the alphabet is preserved,
/// and on reads free of N only A/C/G/T is ever written.
pub proof fn lemma_correction_alphabet(cfg: Cli, rv1: RecV, rv2: RecV)
    requires
        all_bases(rv1.seq),
        all_bases(rv2.seq),
    ensures
        all_bases(correction_stage(cfg, rv1, rv2).0.seq),
        all_bases(correction_stage(cfg, rv1, rv2).1.seq),
        all_acgt(rv1.seq) && all_acgt(rv2.seq) ==> all_acgt(correction_stage(cfg, rv1, rv2).0.seq)
            && all_acgt(correction_stage(cfg, rv1, rv2).1.seq),
{
    let res = best_overlap(
        rv1.seq,
        rv2.seq,
        cfg.overlap_len_require as int,
        cfg.overlap_diff_limit as int,
        cfg.overlap_diff_percent_limit as int,
    );
    if cfg.correction && res is Some && res->0.len >= cfg.overlap_len_require {
        lemma_scan_best_wf(
            rv1.seq,
            revcomp(rv2.seq),
            cfg.overlap_len_require as int,
            cfg.overlap_diff_limit as int,
            cfg.overlap_diff_percent_limit as int,
            0,
            Option::None,
        );
        let b = res->0;
        let a = crate::base_correction::corr_a(b.offset);
        let bb = crate::base_correction::corr_b(b.offset, rv2.seq.len() as int);
        assert(0 <= bb - (b.len - 1) && bb < rv2.seq.len());
        assert(a + b.len <= rv1.seq.len());
        if all_acgt(rv1.seq) && all_acgt(rv2.seq) {
            let c0 = corr_s1(rv1.seq, rv1.qual, rv2.seq, rv2.qual, a, bb, b.len);
            let c1 = corr_s2(rv1.seq, rv1.qual, rv2.seq, rv2.qual, a, bb, b.len);
            assert forall|i: int| 0 <= i < c0.len() implies acgt(#[trigger] c0[i]) by {
                if a <= i < a + b.len {
                    assert(0 <= bb - (i - a) < rv2.seq.len());
                    assert(acgt(rv2.seq[bb - (i - a)]));
                }
            }
            assert forall|i: int| 0 <= i < c1.len() implies acgt(#[trigger] c1[i]) by {
                if bb - b.len < i <= bb {
                    assert(0 <= a + (bb - i) < rv1.seq.len());
                    assert(acgt(rv1.seq[a + (bb - i)]));
                }
            }
        }
    }
}

/// Alphabet invariant for the whole pair transform.
pub proof fn lemma_trim_pair_alphabet(cfg: Cli, rv1: RecV, rv2: RecV)
    requires
        rv1.wf(),
        rv2.wf(),
        cfg.wf(),
        all_bases(rv1.seq),
        all_bases(rv2.seq),
    ensures
        all_bases(trim_pair_spec(cfg, rv1, rv2).0.seq),
        all_bases(trim_pair_spec(cfg, rv1, rv2).1.seq),
{
    lemma_correction_alphabet(cfg, rv1, rv2);
    let c = correction_stage(cfg, rv1, rv2);
    let t = readthrough_stage(cfg, rv1, rv2, c.0, c.1);
    lemma_scan_best_wf(
        rv1.seq,
        revcomp(rv2.seq),
        cfg.overlap_len_require as int,
        cfg.overlap_diff_limit as int,
        cfg.overlap_diff_percent_limit as int,
        0,
        Option::None,
    );
    assert(all_bases(t.0.seq));
    assert(all_bases(t.1.seq));
    assert(c.0.wf() && c.1.wf());
    assert(t.0.wf() && t.1.wf());
    lemma_trim_record_alphabet(cfg, t.0, false);
    lemma_trim_record_alphabet(cfg, t.1, true);
}

// ---------------------------------------------------------------------
// Idempotence, for configurations that do not trim.
// ---------------------------------------------------------------------

/// No transform is enabled: nothing cuts, trims or corrects.
pub open spec fn no_trimming(cfg: Cli) -> bool {
    &&& cfg.disable_adapter_trimming
    &&& !cfg.trim_poly_x
    &&& !(cfg.trim_poly_g && !cfg.disable_trim_poly_g)
    &&& !cfg.cut_front && !cfg.cut_tail && !cfg.cut_right
    &&& !cfg.correction
    &&& cfg.trim_front1 == 0 && cfg.trim_tail1 == 0 && cfg.max_len1 == 0
    &&& cfg.trim_front2 == 0 && cfg.trim_tail2 == 0 && cfg.max_len2 == 0
}

/// With nothing to trim, the per-record transform is the identity.
pub proof fn lemma_trim_record_identity(cfg: Cli, rv: RecV, is_r2: bool)
    requires
        rv.wf(),
        no_trimming(cfg),
    ensures
        trim_record_spec(cfg, rv, is_r2).0 == rv,
        trim_record_spec(cfg, rv, is_r2).1 == RepV::zero(),
{
    let l = rv.seq.len() as int;
    if l == 0 {
        assert(static_stage(cfg, rv, is_r2).seq =~= rv.seq);
        assert(static_stage(cfg, rv, is_r2).qual =~= rv.qual);
    } else {
        assert(rv.seq.subrange(0, l) =~= rv.seq);
        assert(rv.qual.subrange(0, l) =~= rv.qual);
    }
    assert(RepV::zero().add(RepV::zero()).add(RepV::zero()) == RepV::zero());
}

/// With nothing to trim, the pair transform only observes the overlap.
pub proof fn lemma_trim_pair_identity(cfg: Cli, rv1: RecV, rv2: RecV)
    requires
        rv1.wf(),
        rv2.wf(),
        no_trimming(cfg),
    ensures
        trim_pair_spec(cfg, rv1, rv2).0 == rv1,
        trim_pair_spec(cfg, rv1, rv2).1 == rv2,
        trim_pair_spec(cfg, rv1, rv2).2 == crate::filter::overlap_delta(cfg, rv1, rv2),
{
    lemma_trim_record_identity(cfg, rv1, false);
    lemma_trim_record_identity(cfg, rv2, true);
    let d = crate::filter::overlap_delta(cfg, rv1, rv2);
    assert(d.add(RepV::zero()).add(RepV::zero()).add(RepV::zero()) == d);
}

/// Every entry of the stream passes the predicates.
pub open spec fn all_pass(cfg: Cli, t: Seq<(RecV, Option<RecV>)>) -> bool {
    forall|i: int|
        0 <= i < t.len() ==> rec_passes(cfg, (#[trigger] t[i]).0) && match t[i].1 {
            Option::Some(r) => rec_passes(cfg, r),
            Option::None => true,
        }
}

/// No trim-related counter moved.
pub open spec fn trim_counters_zero(d: RepV) -> bool {
    &&& d.adapter_trimmed_reads == 0 && d.adapter_trimmed_bases == 0
    &&& d.poly_g_trimmed_reads == 0 && d.poly_g_trimmed_bases == 0
    &&& d.poly_x_trimmed_reads == 0 && d.poly_x_trimmed_bases == 0
}

/// With nothing to trim, processing outputs exactly the entries, all of
/// which pass.
pub proof fn lemma_no_trim_outputs(cfg: Cli, s: Seq<(RecV, Option<RecV>)>)
    requires
        no_trimming(cfg),
        entries_wf(s),
    ensures
        all_pass(cfg, process_records(cfg, s).0),
        entries_wf(process_records(cfg, s).0),
    decreases s.len(),
{
    reveal(step_out);
    if s.len() > 0 {
        assert(entries_wf(s.drop_last())) by {
            assert(forall|i: int| 0 <= i < s.drop_last().len() ==> s.drop_last()[i] == s[i]);
        }
        lemma_no_trim_outputs(cfg, s.drop_last());
        let p = s.last();
        match p.1 {
            Option::Some(rv2) => {
                lemma_trim_pair_identity(cfg, p.0, rv2);
            },
            Option::None => {
                lemma_trim_record_identity(cfg, p.0, false);
            },
        }
        let prev = process_records(cfg, s.drop_last()).0;
        let o = step_out(cfg, p);
        assert forall|i: int|
            0 <= i < process_records(cfg, s).0.len() implies rec_passes(
            cfg,
            (#[trigger] process_records(cfg, s).0[i]).0,
        ) && match process_records(cfg, s).0[i].1 {
            Option::Some(r) => rec_passes(cfg, r),
            Option::None => true,
        } && process_records(cfg, s).0[i].0.wf() && process_records(cfg, s).0[i].0.seq.len()
            <= 0x7fffffff && match process_records(cfg, s).0[i].1 {
            Option::Some(r) => r.wf() && r.seq.len() <= 0x7fffffff,
            Option::None => true,
        } by {
            if i < prev.len() {
                assert(process_records(cfg, s).0[i] == prev[i]);
            } else {
                assert(process_records(cfg, s).0[i] == o[i - prev.len()]);
            }
        }
    }
}

/// A stream whose entries all pass goes through unchanged: the output is
/// the input, every read passes, and no trim counter moves.
pub proof fn lemma_pass_only(cfg: Cli, t: Seq<(RecV, Option<RecV>)>)
    requires
        no_trimming(cfg),
        entries_wf(t),
        all_pass(cfg, t),
    ensures
        process_records(cfg, t).0 == t,
        process_records(cfg, t).1.passed_reads == t.len(),
        process_records(cfg, t).1.total_reads == t.len(),
        trim_counters_zero(process_records(cfg, t).1),
    decreases t.len(),
{
    reveal(step_out);
    reveal(step_delta);
    if t.len() == 0 {
        assert(process_records(cfg, t).0 =~= t);
    } else {
        assert(entries_wf(t.drop_last()) && all_pass(cfg, t.drop_last())) by {
            assert(forall|i: int| 0 <= i < t.drop_last().len() ==> t.drop_last()[i] == t[i]);
        }
        lemma_pass_only(cfg, t.drop_last());
        let p = t.last();
        match p.1 {
            Option::Some(rv2) => {
                lemma_trim_pair_identity(cfg, p.0, rv2);
            },
            Option::None => {
                lemma_trim_record_identity(cfg, p.0, false);
            },
        }
        assert(process_records(cfg, t).0 =~= t);
    }
}

/// Idempotence: with an untrimming configuration, running the filter a
/// second time over its own output changes nothing, and the second run's
/// trim counters all stay zero.
pub proof fn lemma_filter_idempotent(cfg: Cli, s: Seq<(RecV, Option<RecV>)>)
    requires
        no_trimming(cfg),
        entries_wf(s),
    ensures
        process_records(cfg, process_records(cfg, s).0).0 == process_records(cfg, s).0,
        trim_counters_zero(process_records(cfg, process_records(cfg, s).0).1),
        process_records(cfg, process_records(cfg, s).0).1.passed_reads == process_records(
            cfg,
            process_records(cfg, s).0,
        ).1.total_reads,
{
    lemma_no_trim_outputs(cfg, s);
    lemma_pass_only(cfg, process_records(cfg, s).0);
}

// ---------------------------------------------------------------------
// Overlap symmetry round trip.
// ---------------------------------------------------------------------

/// A perfect non-negative overlap really is a reverse-complement match:
/// the overlapping window of read one equals the reverse complement of
/// the tail of read two.
pub proof fn lemma_overlap_roundtrip(
    s1: Seq<u8>,
    s2: Seq<u8>,
    min_ov: int,
    dl: int,
    pct: int,
    b: OvBest,
)
    requires
        min_ov >= 0,
        best_overlap(s1, s2, min_ov, dl, pct) == Option::Some(b),
        b.offset >= 0,
        b.diff == 0,
    ensures
        0 <= b.len <= s2.len(),
        b.offset + b.len <= s1.len(),
        s1.subrange(b.offset, b.offset + b.len) == revcomp(s2).subrange(0, b.len),
        s1.subrange(b.offset, b.offset + b.len) == revcomp(
            s2.subrange(s2.len() - b.len, s2.len() as int),
        ),
{
    let rc = revcomp(s2);
    lemma_scan_best_wf(s1, rc, min_ov, dl, pct, 0, Option::None);
    assert(best_wf(s1, rc, min_ov, dl, pct, b));
    assert(b.len == cand_len(s1.len() as int, rc.len() as int, b.offset));
    assert(mism_at(s1, b.offset, rc, 0, b.len) == 0);
    lemma_mism_at_zero(s1, b.offset, rc, 0, b.len);
    assert(0 <= b.offset < s1.len());
    assert(b.len <= rc.len() && b.offset + b.len <= s1.len());
    assert forall|i: int|
        0 <= i < b.len implies s1.subrange(b.offset, b.offset + b.len)[i] == rc.subrange(
        0,
        b.len,
    )[i] by {
        assert(s1[b.offset + i] == rc[0 + i]);
        assert(s1.subrange(b.offset, b.offset + b.len)[i] == s1[b.offset + i]);
    }
    assert(s1.subrange(b.offset, b.offset + b.len) =~= rc.subrange(0, b.len));
    let tail2 = s2.subrange(s2.len() - b.len, s2.len() as int);
    assert forall|i: int| 0 <= i < b.len implies revcomp(tail2)[i] == rc[i] by {
        assert(revcomp(tail2)[i] == comp(tail2[b.len - 1 - i]));
        assert(tail2[b.len - 1 - i] == s2[s2.len() - 1 - i]);
        assert(rc[i] == comp(s2[s2.len() - 1 - i]));
    }
    assert(revcomp(tail2) =~= rc.subrange(0, b.len));
}

} // verus!
