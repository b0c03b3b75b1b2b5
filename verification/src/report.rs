//! Additive counters gathered per pack and merged into one global report.

use vstd::prelude::*;

verus! {

/// Ghost model of a report: every counter as an unbounded natural, so that
/// sums can be reasoned about before overflow is ruled out.
pub ghost struct RepV {
    pub total_reads: nat,
    pub passed_reads: nat,
    pub failed_too_short: nat,
    pub failed_low_quality: nat,
    pub failed_n_excess: nat,
    pub failed_low_average_qual: nat,
    pub adapter_trimmed_reads: nat,
    pub adapter_trimmed_bases: nat,
    pub poly_g_trimmed_reads: nat,
    pub poly_g_trimmed_bases: nat,
    pub poly_x_trimmed_reads: nat,
    pub poly_x_trimmed_bases: nat,
    pub pe_overlap_diff_sum: nat,
    pub pe_overlap_count: nat,
}

impl RepV {
    pub open spec fn zero() -> RepV {
        RepV {
            total_reads: 0,
            passed_reads: 0,
            failed_too_short: 0,
            failed_low_quality: 0,
            failed_n_excess: 0,
            failed_low_average_qual: 0,
            adapter_trimmed_reads: 0,
            adapter_trimmed_bases: 0,
            poly_g_trimmed_reads: 0,
            poly_g_trimmed_bases: 0,
            poly_x_trimmed_reads: 0,
            poly_x_trimmed_bases: 0,
            pe_overlap_diff_sum: 0,
            pe_overlap_count: 0,
        }
    }

    /// Componentwise sum: the merge rule for every counter.  The running
    /// weighted mean of per-pair overlap differences is carried as the exact
    /// pair (sum of differences, number of pairs), whose merge is also a sum.
    pub open spec fn add(self, o: RepV) -> RepV {
        RepV {
            total_reads: self.total_reads + o.total_reads,
            passed_reads: self.passed_reads + o.passed_reads,
            failed_too_short: self.failed_too_short + o.failed_too_short,
            failed_low_quality: self.failed_low_quality + o.failed_low_quality,
            failed_n_excess: self.failed_n_excess + o.failed_n_excess,
            failed_low_average_qual: self.failed_low_average_qual + o.failed_low_average_qual,
            adapter_trimmed_reads: self.adapter_trimmed_reads + o.adapter_trimmed_reads,
            adapter_trimmed_bases: self.adapter_trimmed_bases + o.adapter_trimmed_bases,
            poly_g_trimmed_reads: self.poly_g_trimmed_reads + o.poly_g_trimmed_reads,
            poly_g_trimmed_bases: self.poly_g_trimmed_bases + o.poly_g_trimmed_bases,
            poly_x_trimmed_reads: self.poly_x_trimmed_reads + o.poly_x_trimmed_reads,
            poly_x_trimmed_bases: self.poly_x_trimmed_bases + o.poly_x_trimmed_bases,
            pe_overlap_diff_sum: self.pe_overlap_diff_sum + o.pe_overlap_diff_sum,
            pe_overlap_count: self.pe_overlap_count + o.pe_overlap_count,
        }
    }

    /// Every counter fits a 64-bit word.
    pub open spec fn fits(self) -> bool {
        &&& self.total_reads <= u64::MAX
        &&& self.passed_reads <= u64::MAX
        &&& self.failed_too_short <= u64::MAX
        &&& self.failed_low_quality <= u64::MAX
        &&& self.failed_n_excess <= u64::MAX
        &&& self.failed_low_average_qual <= u64::MAX
        &&& self.adapter_trimmed_reads <= u64::MAX
        &&& self.adapter_trimmed_bases <= u64::MAX
        &&& self.poly_g_trimmed_reads <= u64::MAX
        &&& self.poly_g_trimmed_bases <= u64::MAX
        &&& self.poly_x_trimmed_reads <= u64::MAX
        &&& self.poly_x_trimmed_bases <= u64::MAX
        &&& self.pe_overlap_diff_sum <= u64::MAX
        &&& self.pe_overlap_count <= u64::MAX
    }

    /// Componentwise order: `self` counts no more than `o` anywhere.
    pub open spec fn le(self, o: RepV) -> bool {
        &&& self.total_reads <= o.total_reads
        &&& self.passed_reads <= o.passed_reads
        &&& self.failed_too_short <= o.failed_too_short
        &&& self.failed_low_quality <= o.failed_low_quality
        &&& self.failed_n_excess <= o.failed_n_excess
        &&& self.failed_low_average_qual <= o.failed_low_average_qual
        &&& self.adapter_trimmed_reads <= o.adapter_trimmed_reads
        &&& self.adapter_trimmed_bases <= o.adapter_trimmed_bases
        &&& self.poly_g_trimmed_reads <= o.poly_g_trimmed_reads
        &&& self.poly_g_trimmed_bases <= o.poly_g_trimmed_bases
        &&& self.poly_x_trimmed_reads <= o.poly_x_trimmed_reads
        &&& self.poly_x_trimmed_bases <= o.poly_x_trimmed_bases
        &&& self.pe_overlap_diff_sum <= o.pe_overlap_diff_sum
        &&& self.pe_overlap_count <= o.pe_overlap_count
    }

    /// Every read is counted exactly once: as passed, or under the first
    /// failing predicate.
    pub open spec fn consistent(self) -> bool {
        self.total_reads == self.passed_reads + self.failed_too_short + self.failed_low_quality
            + self.failed_n_excess + self.failed_low_average_qual
    }
}

/// Additive counters for one pack or for a whole run.
#[derive(Clone, Debug)]
pub struct Report {
    pub total_reads: u64,
    pub passed_reads: u64,
    pub failed_too_short: u64,
    pub failed_low_quality: u64,
    pub failed_n_excess: u64,
    pub failed_low_average_qual: u64,
    pub adapter_trimmed_reads: u64,
    pub adapter_trimmed_bases: u64,
    pub poly_g_trimmed_reads: u64,
    pub poly_g_trimmed_bases: u64,
    pub poly_x_trimmed_reads: u64,
    pub poly_x_trimmed_bases: u64,
    pub pe_overlap_diff_sum: u64,
    pub pe_overlap_count: u64,
}

impl View for Report {
    type V = RepV;

    open spec fn view(&self) -> RepV {
        RepV {
            total_reads: self.total_reads as nat,
            passed_reads: self.passed_reads as nat,
            failed_too_short: self.failed_too_short as nat,
            failed_low_quality: self.failed_low_quality as nat,
            failed_n_excess: self.failed_n_excess as nat,
            failed_low_average_qual: self.failed_low_average_qual as nat,
            adapter_trimmed_reads: self.adapter_trimmed_reads as nat,
            adapter_trimmed_bases: self.adapter_trimmed_bases as nat,
            poly_g_trimmed_reads: self.poly_g_trimmed_reads as nat,
            poly_g_trimmed_bases: self.poly_g_trimmed_bases as nat,
            poly_x_trimmed_reads: self.poly_x_trimmed_reads as nat,
            poly_x_trimmed_bases: self.poly_x_trimmed_bases as nat,
            pe_overlap_diff_sum: self.pe_overlap_diff_sum as nat,
            pe_overlap_count: self.pe_overlap_count as nat,
        }
    }
}

impl Default for Report {
    fn default() -> (r: Report)
        ensures
            r@ == RepV::zero(),
    {
        Report {
            total_reads: 0,
            passed_reads: 0,
            failed_too_short: 0,
            failed_low_quality: 0,
            failed_n_excess: 0,
            failed_low_average_qual: 0,
            adapter_trimmed_reads: 0,
            adapter_trimmed_bases: 0,
            poly_g_trimmed_reads: 0,
            poly_g_trimmed_bases: 0,
            poly_x_trimmed_reads: 0,
            poly_x_trimmed_bases: 0,
            pe_overlap_diff_sum: 0,
            pe_overlap_count: 0,
        }
    }
}

impl Report {
    /// Fold another report into this one: plain sums everywhere.
    pub fn merge(&mut self, other: &Report)
        requires
            old(self)@.add(other@).fits(),
        ensures
            final(self)@ == old(self)@.add(other@),
    {
        self.total_reads = self.total_reads + other.total_reads;
        self.passed_reads = self.passed_reads + other.passed_reads;
        self.failed_too_short = self.failed_too_short + other.failed_too_short;
        self.failed_low_quality = self.failed_low_quality + other.failed_low_quality;
        self.failed_n_excess = self.failed_n_excess + other.failed_n_excess;
        self.failed_low_average_qual = self.failed_low_average_qual + other.failed_low_average_qual;
        self.adapter_trimmed_reads = self.adapter_trimmed_reads + other.adapter_trimmed_reads;
        self.adapter_trimmed_bases = self.adapter_trimmed_bases + other.adapter_trimmed_bases;
        self.poly_g_trimmed_reads = self.poly_g_trimmed_reads + other.poly_g_trimmed_reads;
        self.poly_g_trimmed_bases = self.poly_g_trimmed_bases + other.poly_g_trimmed_bases;
        self.poly_x_trimmed_reads = self.poly_x_trimmed_reads + other.poly_x_trimmed_reads;
        self.poly_x_trimmed_bases = self.poly_x_trimmed_bases + other.poly_x_trimmed_bases;
        self.pe_overlap_diff_sum = self.pe_overlap_diff_sum + other.pe_overlap_diff_sum;
        self.pe_overlap_count = self.pe_overlap_count + other.pe_overlap_count;
    }
}

/// Counter additivity survives merging: if each side counts every read
/// exactly once, so does the sum.
pub proof fn lemma_merge_consistent(a: RepV, b: RepV)
    requires
        a.consistent(),
        b.consistent(),
    ensures
        a.add(b).consistent(),
{
}

} // verus!
