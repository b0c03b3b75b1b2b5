//! The per-record and per-pair filter: composes overlap analysis, base
//! correction, adapter and tail trimming, sliding-window cutting, static
//! trims and the pass/fail predicates.

use vstd::prelude::*;
use vstd::slice::{slice_subrange, slice_to_vec};
use crate::adapter_trimmer::{adapter_delta, adapter_new_len, AdapterTrimmer};
use crate::base_correction::{corr_a, corr_b, corr_q1, corr_q2, corr_s1, corr_s2, BaseCorrector};
use crate::bases::{count_low, count_n, imin, phred_sum, revcomp};
use crate::config::Cli;
use crate::overlap::{best_overlap, best_wf, lemma_scan_best_wf, OverlapAnalyzer};
use crate::poly::{polyg_delta, polyx_delta, poly_new_len, polyx_new_len, PolyGTrimmer, PolyXTrimmer};
use crate::bases::BASE_G;
use crate::record::{FastqRecord, RecV};
use crate::report::{RepV, Report};
use crate::sliding_window::{window_result, SlidingWindow};

verus! {

/// Adapter trimming stage of one record, with its counter change.
pub open spec fn adapter_stage(cfg: Cli, rv: RecV, is_r2: bool) -> (RecV, RepV) {
    let ad = if is_r2 {
        cfg.adapter_sequence_r2
    } else {
        cfg.adapter_sequence
    };
    if !cfg.disable_adapter_trimming && ad is Some {
        let adv = ad->0@;
        (
            RecV {
                name: rv.name,
                seq: rv.seq.take(adapter_new_len(rv.seq, adv)),
                plus: rv.plus,
                qual: rv.qual.take(adapter_new_len(rv.seq, adv)),
            },
            adapter_delta(rv.seq, adv),
        )
    } else {
        (rv, RepV::zero())
    }
}

/// Poly-X stage of one record.
pub open spec fn polyx_stage(cfg: Cli, rv: RecV) -> (RecV, RepV) {
    if cfg.trim_poly_x {
        (
            RecV {
                name: rv.name,
                seq: rv.seq.take(polyx_new_len(rv.seq, cfg.poly_x_min_len as int)),
                plus: rv.plus,
                qual: rv.qual.take(polyx_new_len(rv.seq, cfg.poly_x_min_len as int)),
            },
            polyx_delta(rv.seq, cfg.poly_x_min_len as int),
        )
    } else {
        (rv, RepV::zero())
    }
}

/// Poly-G stage of one record.
pub open spec fn polyg_stage(cfg: Cli, rv: RecV) -> (RecV, RepV) {
    if cfg.trim_poly_g && !cfg.disable_trim_poly_g {
        (
            RecV {
                name: rv.name,
                seq: rv.seq.take(poly_new_len(rv.seq, BASE_G, cfg.poly_g_min_len as int)),
                plus: rv.plus,
                qual: rv.qual.take(poly_new_len(rv.seq, BASE_G, cfg.poly_g_min_len as int)),
            },
            polyg_delta(rv.seq, cfg.poly_g_min_len as int),
        )
    } else {
        (rv, RepV::zero())
    }
}

/// Static positional trim: drop a fixed front and tail and cap the length.
pub open spec fn static_stage(cfg: Cli, rv: RecV, is_r2: bool) -> RecV {
    let front = (if is_r2 {
        cfg.trim_front2
    } else {
        cfg.trim_front1
    }) as int;
    let tail = (if is_r2 {
        cfg.trim_tail2
    } else {
        cfg.trim_tail1
    }) as int;
    let maxl = (if is_r2 {
        cfg.max_len2
    } else {
        cfg.max_len1
    }) as int;
    let len = rv.seq.len() as int;
    let start = imin(front, len);
    let end1 = if tail <= len {
        len - tail
    } else {
        0
    };
    let end2 = if maxl > 0 {
        imin(end1, start + maxl)
    } else {
        end1
    };
    if start >= end2 {
        RecV { name: rv.name, seq: Seq::empty(), plus: rv.plus, qual: Seq::empty() }
    } else {
        RecV {
            name: rv.name,
            seq: rv.seq.subrange(start, end2),
            plus: rv.plus,
            qual: rv.qual.subrange(start, end2),
        }
    }
}

/// The whole per-record transform chain, and its counter change.
pub open spec fn trim_record_spec(cfg: Cli, rv: RecV, is_r2: bool) -> (RecV, RepV) {
    let a = adapter_stage(cfg, rv, is_r2);
    let x = polyx_stage(cfg, a.0);
    let g = polyg_stage(cfg, x.0);
    let wres = window_result(cfg, g.0, 0);
    let fin = static_stage(cfg, wres.0, is_r2);
    (fin, a.1.add(x.1).add(g.1))
}

/// The read is shorter than required.
pub open spec fn fails_too_short(cfg: Cli, rv: RecV) -> bool {
    rv.seq.len() < cfg.length_required
}

/// Too many unknown bases.
pub open spec fn fails_n_excess(cfg: Cli, rv: RecV) -> bool {
    count_n(rv.seq, rv.seq.len() as int) > cfg.n_base_limit
}

/// The mean Phred score misses the requested average; an empty read has
/// mean zero.
pub open spec fn fails_low_avg(cfg: Cli, rv: RecV) -> bool {
    cfg.average_qual > 0 && (rv.qual.len() == 0 || phred_sum(rv.qual, rv.qual.len() as int)
        < (cfg.average_qual as int) * (rv.qual.len() as int))
}

/// Too large a share of bases below the qualified Phred score; an empty
/// quality string counts as one hundred percent.
pub open spec fn fails_low_qual(cfg: Cli, rv: RecV) -> bool {
    if rv.qual.len() == 0 {
        100 > cfg.unqualified_percent_limit
    } else {
        count_low(rv.qual, rv.qual.len() as int, cfg.qualified_quality_phred as int) * 100 > (
        cfg.unqualified_percent_limit as int) * (rv.qual.len() as int)
    }
}

/// The record clears every predicate, in order.
pub open spec fn rec_passes(cfg: Cli, rv: RecV) -> bool {
    &&& !fails_too_short(cfg, rv)
    &&& !fails_n_excess(cfg, rv)
    &&& !fails_low_avg(cfg, rv)
    &&& !fails_low_qual(cfg, rv)
}

/// The counter change of one pass/fail check: exactly the first failing
/// predicate counts.
pub open spec fn pass_delta(cfg: Cli, rv: RecV) -> RepV {
    if fails_too_short(cfg, rv) {
        RepV { failed_too_short: 1, ..RepV::zero() }
    } else if fails_n_excess(cfg, rv) {
        RepV { failed_n_excess: 1, ..RepV::zero() }
    } else if fails_low_avg(cfg, rv) {
        RepV { failed_low_average_qual: 1, ..RepV::zero() }
    } else if fails_low_qual(cfg, rv) {
        RepV { failed_low_quality: 1, ..RepV::zero() }
    } else {
        RepV::zero()
    }
}

/// Overlap bookkeeping for one pair.
pub open spec fn overlap_delta(cfg: Cli, rv1: RecV, rv2: RecV) -> RepV {
    match best_overlap(
        rv1.seq,
        rv2.seq,
        cfg.overlap_len_require as int,
        cfg.overlap_diff_limit as int,
        cfg.overlap_diff_percent_limit as int,
    ) {
        Option::Some(b) => RepV { pe_overlap_count: 1, pe_overlap_diff_sum: b.diff, ..RepV::zero() },
        Option::None => RepV::zero(),
    }
}

/// The pair after base correction, when correction applies.
pub open spec fn correction_stage(cfg: Cli, rv1: RecV, rv2: RecV) -> (RecV, RecV) {
    let res = best_overlap(
        rv1.seq,
        rv2.seq,
        cfg.overlap_len_require as int,
        cfg.overlap_diff_limit as int,
        cfg.overlap_diff_percent_limit as int,
    );
    if cfg.correction && res is Some && res->0.len >= cfg.overlap_len_require {
        let b = res->0;
        let a = corr_a(b.offset);
        let bb = corr_b(b.offset, rv2.seq.len() as int);
        (
            RecV {
                name: rv1.name,
                seq: corr_s1(rv1.seq, rv1.qual, rv2.seq, rv2.qual, a, bb, b.len),
                plus: rv1.plus,
                qual: corr_q1(rv1.seq, rv1.qual, rv2.seq, rv2.qual, a, bb, b.len),
            },
            RecV {
                name: rv2.name,
                seq: corr_s2(rv1.seq, rv1.qual, rv2.seq, rv2.qual, a, bb, b.len),
                plus: rv2.plus,
                qual: corr_q2(rv1.seq, rv1.qual, rv2.seq, rv2.qual, a, bb, b.len),
            },
        )
    } else {
        (rv1, rv2)
    }
}

/// Whether overlap-based read-through trimming runs: only without any
/// explicit adapter.
pub open spec fn readthrough_enabled(cfg: Cli) -> bool {
    &&& !cfg.disable_adapter_trimming
    &&& cfg.adapter_sequence is None
    &&& cfg.adapter_sequence_r2 is None
}

/// Read-through trim of a corrected pair, with its counter change.  The
/// overlap geometry marks everything past the insert as adapter.
pub open spec fn readthrough_stage(cfg: Cli, rv1: RecV, rv2: RecV, c1: RecV, c2: RecV) -> (
    RecV,
    RecV,
    RepV,
) {
    let res = best_overlap(
        rv1.seq,
        rv2.seq,
        cfg.overlap_len_require as int,
        cfg.overlap_diff_limit as int,
        cfg.overlap_diff_percent_limit as int,
    );
    if readthrough_enabled(cfg) && res is Some {
        let b = res->0;
        let len1 = c1.seq.len() as int;
        let len2 = c2.seq.len() as int;
        if b.offset >= 0 {
            if len1 > b.offset + b.len {
                (
                    RecV {
                        name: c1.name,
                        seq: c1.seq.take(b.offset + b.len),
                        plus: c1.plus,
                        qual: c1.qual.take(b.offset + b.len),
                    },
                    c2,
                    RepV {
                        adapter_trimmed_reads: 1,
                        adapter_trimmed_bases: (len1 - (b.offset + b.len)) as nat,
                        ..RepV::zero()
                    },
                )
            } else {
                (c1, c2, RepV::zero())
            }
        } else {
            let k = -b.offset;
            let n1 = if len1 > b.len {
                RecV {
                    name: c1.name,
                    seq: c1.seq.take(b.len),
                    plus: c1.plus,
                    qual: c1.qual.take(b.len),
                }
            } else {
                c1
            };
            let d1 = if len1 > b.len {
                RepV {
                    adapter_trimmed_reads: 1,
                    adapter_trimmed_bases: (len1 - b.len) as nat,
                    ..RepV::zero()
                }
            } else {
                RepV::zero()
            };
            let n2 = if len2 > k {
                RecV {
                    name: c2.name,
                    seq: c2.seq.take(len2 - k),
                    plus: c2.plus,
                    qual: c2.qual.take(len2 - k),
                }
            } else {
                c2
            };
            let d2 = if len2 > k {
                RepV { adapter_trimmed_reads: 1, adapter_trimmed_bases: k as nat, ..RepV::zero() }
            } else {
                RepV::zero()
            };
            (n1, n2, d1.add(d2))
        }
    } else {
        (c1, c2, RepV::zero())
    }
}

/// The whole per-pair transform, and its counter change.
pub open spec fn trim_pair_spec(cfg: Cli, rv1: RecV, rv2: RecV) -> (RecV, RecV, RepV) {
    let d_ov = overlap_delta(cfg, rv1, rv2);
    let c = correction_stage(cfg, rv1, rv2);
    let t = readthrough_stage(cfg, rv1, rv2, c.0, c.1);
    let f1 = trim_record_spec(cfg, t.0, false);
    let f2 = trim_record_spec(cfg, t.1, true);
    (f1.0, f2.0, d_ov.add(t.2).add(f1.1).add(f2.1))
}

/// Applies the configured transforms and predicates to records and pairs.
pub struct Filter {
    config: Cli,
}

impl Filter {
    /// The configuration this filter runs with.
    pub closed spec fn cfg(&self) -> Cli {
        self.config
    }

    pub fn new(config: Cli) -> (r: Self)
        ensures
            r.cfg() == config,
    {
        Filter { config }
    }

    /// Trim one record: adapter, poly-X, poly-G, sliding windows, then the
    /// static front/tail/length trim.
    #[verifier::rlimit(100)]
    pub fn trim_record(&self, rec: FastqRecord, is_r2: bool, report: &mut Report) -> (r:
        FastqRecord)
        requires
            rec.wf(),
            self.cfg().wf(),
            rec@.seq.len() <= 0x7fffffff,
            old(report)@.add(trim_record_spec(self.cfg(), rec@, is_r2).1).fits(),
        ensures
            r@ == trim_record_spec(self.cfg(), rec@, is_r2).0,
            final(report)@ == old(report)@.add(trim_record_spec(self.cfg(), rec@, is_r2).1),
            r.wf(),
    {
        let ghost rv0 = rec@;
        let ghost cfg = self.cfg();
        let mut rec = rec;

        if !self.config.disable_adapter_trimming {
            if is_r2 {
                match &self.config.adapter_sequence_r2 {
                    Option::Some(a) => {
                        let _hit = AdapterTrimmer::trim_by_sequence(
                            &mut rec,
                            Option::Some(a),
                            report,
                            is_r2,
                        );
                    },
                    Option::None => {},
                }
            } else {
                match &self.config.adapter_sequence {
                    Option::Some(a) => {
                        let _hit = AdapterTrimmer::trim_by_sequence(
                            &mut rec,
                            Option::Some(a),
                            report,
                            is_r2,
                        );
                    },
                    Option::None => {},
                }
            }
        }
        assert(rec@ == adapter_stage(cfg, rv0, is_r2).0);
        let ghost rv_a = rec@;

        if self.config.trim_poly_x {
            PolyXTrimmer::trim_poly_x(&mut rec, self.config.poly_x_min_len, report);
        }
        assert(rec@ == polyx_stage(cfg, rv_a).0);
        let ghost rv_x = rec@;

        if self.config.trim_poly_g && !self.config.disable_trim_poly_g {
            PolyGTrimmer::trim_poly_g(&mut rec, self.config.poly_g_min_len, report);
        }
        assert(rec@ == polyg_stage(cfg, rv_x).0);
        let ghost rv_g = rec@;

        let mut front_trimmed: usize = 0;
        let cur_len = rec.seq.len();
        assert(front_trimmed + cur_len <= usize::MAX);
        let _kept = SlidingWindow::trim_and_cut(&mut rec, &self.config, &mut front_trimmed);
        assert(rec@ == window_result(cfg, rv_g, 0).0);
        let ghost rv_w = rec@;

        let front = if is_r2 {
            self.config.trim_front2
        } else {
            self.config.trim_front1
        };
        let tail = if is_r2 {
            self.config.trim_tail2
        } else {
            self.config.trim_tail1
        };
        let max_len = if is_r2 {
            self.config.max_len2
        } else {
            self.config.max_len1
        };
        let len = rec.seq.len();
        let start = if front <= len {
            front
        } else {
            len
        };
        let mut end = if tail <= len {
            len - tail
        } else {
            0
        };
        if max_len > 0 {
            let cap: usize = if start <= usize::MAX - max_len {
                start + max_len
            } else {
                usize::MAX
            };
            if cap < end {
                end = cap;
            }
            assert(end as int == imin(
                if (if is_r2 { cfg.trim_tail2 } else { cfg.trim_tail1 }) as int <= rv_w.seq.len() {
                    rv_w.seq.len() - (if is_r2 { cfg.trim_tail2 } else { cfg.trim_tail1 }) as int
                } else {
                    0
                },
                start + (if is_r2 { cfg.max_len2 } else { cfg.max_len1 }) as int,
            ));
        }
        if start >= end {
            rec.seq.clear();
            rec.qual.clear();
            assert(rec@ == static_stage(cfg, rv_w, is_r2));
            return rec;
        }
        let ns = slice_to_vec(slice_subrange(rec.seq.as_slice(), start, end));
        let nq = slice_to_vec(slice_subrange(rec.qual.as_slice(), start, end));
        rec.seq = ns;
        rec.qual = nq;
        assert(rec@ == static_stage(cfg, rv_w, is_r2));
        rec
    }

    /// Analyze the overlap of a pair, correct disagreeing bases where
    /// requested, trim read-through adapter by the overlap geometry when no
    /// explicit adapter is configured, then trim each record on its own.
    #[verifier::rlimit(100)]
    pub fn trim_pair(&self, r1: FastqRecord, r2: FastqRecord, report: &mut Report) -> (r: (
        FastqRecord,
        FastqRecord,
    ))
        requires
            r1.wf(),
            r2.wf(),
            self.cfg().wf(),
            r1@.seq.len() <= 0x7fffffff,
            r2@.seq.len() <= 0x7fffffff,
            old(report)@.add(trim_pair_spec(self.cfg(), r1@, r2@).2).fits(),
        ensures
            r.0@ == trim_pair_spec(self.cfg(), r1@, r2@).0,
            r.1@ == trim_pair_spec(self.cfg(), r1@, r2@).1,
            final(report)@ == old(report)@.add(trim_pair_spec(self.cfg(), r1@, r2@).2),
            r.0.wf(),
            r.1.wf(),
    {
        let ghost cfg = self.cfg();
        let ghost rv1 = r1@;
        let ghost rv2 = r2@;
        let mut r1 = r1;
        let mut r2 = r2;

        let res = OverlapAnalyzer::analyze_with_params(
            &r1,
            &r2,
            self.config.overlap_len_require,
            self.config.overlap_diff_limit,
            self.config.overlap_diff_percent_limit as usize,
        );
        proof {
            lemma_scan_best_wf(
                rv1.seq,
                revcomp(rv2.seq),
                cfg.overlap_len_require as int,
                cfg.overlap_diff_limit as int,
                cfg.overlap_diff_percent_limit as int,
                0,
                Option::None,
            );
        }
        if res.overlapped {
            report.pe_overlap_count = report.pe_overlap_count + 1;
            report.pe_overlap_diff_sum = report.pe_overlap_diff_sum + (res.diff as u64);
        }
        assert(report@ == old(report)@.add(overlap_delta(cfg, rv1, rv2)));

        if self.config.correction && res.overlapped && res.overlap_len
            >= self.config.overlap_len_require {
            BaseCorrector::correct(&mut r1, &mut r2, res.offset, res.overlap_len);
        }
        assert(r1@ == correction_stage(cfg, rv1, rv2).0);
        assert(r2@ == correction_stage(cfg, rv1, rv2).1);
        let ghost cpair = correction_stage(cfg, rv1, rv2);

        self.apply_readthrough(res, &mut r1, &mut r2, report, Ghost(rv1), Ghost(rv2));
        let ghost tstage = readthrough_stage(cfg, rv1, rv2, cpair.0, cpair.1);
        assert(r1@ == tstage.0);
        assert(r2@ == tstage.1);
        assert(report@ == old(report)@.add(overlap_delta(cfg, rv1, rv2)).add(tstage.2));

        let rec1 = self.trim_record(r1, false, report);
        let rec2 = self.trim_record(r2, true, report);

        (rec1, rec2)
    }

    /// Read-through trim by overlap geometry: without an explicit adapter,
    /// everything past the insert is treated as adapter and cut.
    #[verifier::rlimit(100)]
    fn apply_readthrough(
        &self,
        res: crate::overlap::OverlapResult,
        r1: &mut FastqRecord,
        r2: &mut FastqRecord,
        report: &mut Report,
        Ghost(rv1): Ghost<RecV>,
        Ghost(rv2): Ghost<RecV>,
    )
        requires
            old(r1).wf(),
            old(r2).wf(),
            ({
                let best = best_overlap(
                    rv1.seq,
                    rv2.seq,
                    self.cfg().overlap_len_require as int,
                    self.cfg().overlap_diff_limit as int,
                    self.cfg().overlap_diff_percent_limit as int,
                );
                match best {
                    Option::None => res.overlapped == false,
                    Option::Some(b) => res.overlapped == true && res.offset == b.offset
                        && res.overlap_len == b.len && best_wf(
                        rv1.seq,
                        revcomp(rv2.seq),
                        self.cfg().overlap_len_require as int,
                        self.cfg().overlap_diff_limit as int,
                        self.cfg().overlap_diff_percent_limit as int,
                        b,
                    ),
                }
            }),
            old(r1)@.seq.len() == rv1.seq.len(),
            old(r2)@.seq.len() == rv2.seq.len(),
            old(report)@.add(
                readthrough_stage(self.cfg(), rv1, rv2, old(r1)@, old(r2)@).2,
            ).fits(),
        ensures
            final(r1)@ == readthrough_stage(self.cfg(), rv1, rv2, old(r1)@, old(r2)@).0,
            final(r2)@ == readthrough_stage(self.cfg(), rv1, rv2, old(r1)@, old(r2)@).1,
            final(report)@ == old(report)@.add(
                readthrough_stage(self.cfg(), rv1, rv2, old(r1)@, old(r2)@).2,
            ),
            final(r1).wf(),
            final(r2).wf(),
    {
        if !self.config.disable_adapter_trimming && self.config.adapter_sequence.is_none()
            && self.config.adapter_sequence_r2.is_none() {
            if res.overlapped {
                let offset = res.offset;
                let overlap_len = res.overlap_len;
                if offset >= 0 {
                    let off = offset as usize;
                    if r1.seq.len() > off + overlap_len {
                        let trimmed_len = r1.seq.len() - (off + overlap_len);
                        report.adapter_trimmed_bases = report.adapter_trimmed_bases + (
                        trimmed_len as u64);
                        r1.seq.truncate(off + overlap_len);
                        r1.qual.truncate(off + overlap_len);
                        report.adapter_trimmed_reads = report.adapter_trimmed_reads + 1;
                    }
                } else {
                    let k: usize = (-(offset as i64)) as usize;
                    if r1.seq.len() > overlap_len {
                        let trimmed_len = r1.seq.len() - overlap_len;
                        report.adapter_trimmed_bases = report.adapter_trimmed_bases + (
                        trimmed_len as u64);
                        r1.seq.truncate(overlap_len);
                        r1.qual.truncate(overlap_len);
                        report.adapter_trimmed_reads = report.adapter_trimmed_reads + 1;
                    }
                    if r2.seq.len() > k {
                        let new_len = r2.seq.len() - k;
                        let trimmed_len = k;
                        report.adapter_trimmed_bases = report.adapter_trimmed_bases + (
                        trimmed_len as u64);
                        r2.seq.truncate(new_len);
                        r2.qual.truncate(new_len);
                        report.adapter_trimmed_reads = report.adapter_trimmed_reads + 1;
                    }
                }
            }
        }
    }

    /// Pass/fail predicates in their fixed order; the first failure is the
    /// one that counts.
    pub fn pass_filters(&self, rec: &FastqRecord, rep: &mut Report) -> (r: bool)
        requires
            old(rep)@.add(pass_delta(self.cfg(), rec@)).fits(),
        ensures
            r == rec_passes(self.cfg(), rec@),
            final(rep)@ == old(rep)@.add(pass_delta(self.cfg(), rec@)),
    {
        let ghost cfg = self.cfg();
        let len_req = self.config.length_required;
        let n_limit = self.config.n_base_limit;
        let avg_req = self.config.average_qual;
        let qmin = self.config.qualified_quality_phred;
        let unq_limit = self.config.unqualified_percent_limit;

        if rec.seq.len() < len_req {
            rep.failed_too_short = rep.failed_too_short + 1;
            return false;
        }

        let slen = rec.seq.len();
        let mut n_count: usize = 0;
        let mut i: usize = 0;
        while i < slen
            invariant
                i <= slen,
                slen == rec@.seq.len(),
                n_count == count_n(rec@.seq, i as int),
                n_count <= i,
            decreases slen - i,
        {
            let b = rec.seq[i];
            if b == crate::bases::BASE_N || b == crate::bases::BASE_N_LOWER {
                n_count = n_count + 1;
            }
            i = i + 1;
        }
        if n_count > n_limit {
            rep.failed_n_excess = rep.failed_n_excess + 1;
            return false;
        }

        let qlen = rec.qual.len();
        if avg_req > 0 {
            let mut psum: u128 = 0;
            let mut j: usize = 0;
            while j < qlen
                invariant
                    j <= qlen,
                    qlen == rec@.qual.len(),
                    psum == phred_sum(rec@.qual, j as int),
                    psum <= 255 * j,
                decreases qlen - j,
            {
                let b = rec.qual[j];
                let v: u8 = if b >= 33 {
                    b - 33
                } else {
                    0
                };
                psum = psum + (v as u128);
                j = j + 1;
            }
            assert((avg_req as u128) * (qlen as u128) <= 255 * (qlen as u128)) by (nonlinear_arith)
                requires
                    avg_req as u128 <= 255,
            ;
            if qlen == 0 || psum < (avg_req as u128) * (qlen as u128) {
                rep.failed_low_average_qual = rep.failed_low_average_qual + 1;
                return false;
            }
        }
        assert(!fails_low_avg(cfg, rec@));

        let mut low: usize = 0;
        let mut j: usize = 0;
        while j < qlen
            invariant
                j <= qlen,
                qlen == rec@.qual.len(),
                low == count_low(rec@.qual, j as int, qmin as int),
                low <= j,
            decreases qlen - j,
        {
            let b = rec.qual[j];
            let v: u8 = if b >= 33 {
                b - 33
            } else {
                0
            };
            if v < qmin {
                low = low + 1;
            }
            j = j + 1;
        }
        let failed_pct: bool = if qlen == 0 {
            100 > unq_limit
        } else {
            assert((unq_limit as u128) * (qlen as u128) <= 255 * (qlen as u128))
                by (nonlinear_arith)
                requires
                    unq_limit as u128 <= 255,
            ;
            (low as u128) * 100 > (unq_limit as u128) * (qlen as u128)
        };
        if failed_pct {
            rep.failed_low_quality = rep.failed_low_quality + 1;
            return false;
        }
        true
    }
}

} // verus!
