//! The recognised options, as plain values the transforms read.

use vstd::prelude::*;

verus! {

/// Every knob of the preprocessor: static trims, filter thresholds,
/// sliding-window cutters, adapter and poly-tail trimming, paired-end
/// overlap handling and pipeline sizing.
#[derive(Clone, Debug)]
pub struct Cli {
    pub trim_front1: usize,
    pub trim_tail1: usize,
    pub max_len1: usize,
    pub trim_front2: usize,
    pub trim_tail2: usize,
    pub max_len2: usize,
    pub length_required: usize,
    pub qualified_quality_phred: u8,
    pub unqualified_percent_limit: u8,
    pub average_qual: u8,
    pub n_base_limit: usize,
    pub cut_front: bool,
    pub cut_tail: bool,
    pub cut_right: bool,
    pub cut_front_window_size: usize,
    pub cut_front_mean_quality: u8,
    pub cut_tail_window_size: usize,
    pub cut_tail_mean_quality: u8,
    pub cut_right_window_size: usize,
    pub cut_right_mean_quality: u8,
    pub disable_adapter_trimming: bool,
    pub adapter_sequence: Option<Vec<u8>>,
    pub adapter_sequence_r2: Option<Vec<u8>>,
    pub trim_poly_g: bool,
    pub poly_g_min_len: usize,
    pub disable_trim_poly_g: bool,
    pub trim_poly_x: bool,
    pub poly_x_min_len: usize,
    pub correction: bool,
    pub overlap_len_require: usize,
    pub overlap_diff_limit: usize,
    pub overlap_diff_percent_limit: u8,
    pub thread: usize,
    pub pack_size: usize,
    pub queue_depth: usize,
    pub compression: u32,
}

impl Cli {
    /// Bounds under which the transforms run: an enabled sliding-window
    /// cutter needs a window of at least one base, and a configured
    /// adapter must fit the position arithmetic.
    pub open spec fn wf(self) -> bool {
        &&& (self.cut_front ==> self.cut_front_window_size >= 1)
        &&& (self.cut_tail ==> self.cut_tail_window_size >= 1)
        &&& (self.cut_right ==> self.cut_right_window_size >= 1)
        &&& (match self.adapter_sequence {
            Option::Some(a) => a@.len() <= 0x7fffffff,
            Option::None => true,
        })
        &&& (match self.adapter_sequence_r2 {
            Option::Some(a) => a@.len() <= 0x7fffffff,
            Option::None => true,
        })
    }
}

impl Default for Cli {
    /// The stock configuration.
    fn default() -> (r: Cli)
        ensures
            r.trim_front1 == 0 && r.trim_tail1 == 0 && r.max_len1 == 0,
            r.trim_front2 == 0 && r.trim_tail2 == 0 && r.max_len2 == 0,
            r.length_required == 15,
            r.qualified_quality_phred == 15,
            r.unqualified_percent_limit == 40,
            r.average_qual == 0,
            r.n_base_limit == 5,
            !r.cut_front && !r.cut_tail && !r.cut_right,
            r.cut_front_window_size == 4 && r.cut_front_mean_quality == 20,
            r.cut_tail_window_size == 4 && r.cut_tail_mean_quality == 20,
            r.cut_right_window_size == 4 && r.cut_right_mean_quality == 20,
            !r.disable_adapter_trimming,
            r.adapter_sequence is None && r.adapter_sequence_r2 is None,
            !r.trim_poly_g && r.poly_g_min_len == 10 && !r.disable_trim_poly_g,
            !r.trim_poly_x && r.poly_x_min_len == 10,
            !r.correction,
            r.overlap_len_require == 30,
            r.overlap_diff_limit == 5,
            r.overlap_diff_percent_limit == 20,
            r.thread == 2 && r.pack_size == 1000 && r.queue_depth == 0 && r.compression == 4,
            r.wf(),
    {
        Cli {
            trim_front1: 0,
            trim_tail1: 0,
            max_len1: 0,
            trim_front2: 0,
            trim_tail2: 0,
            max_len2: 0,
            length_required: 15,
            qualified_quality_phred: 15,
            unqualified_percent_limit: 40,
            average_qual: 0,
            n_base_limit: 5,
            cut_front: false,
            cut_tail: false,
            cut_right: false,
            cut_front_window_size: 4,
            cut_front_mean_quality: 20,
            cut_tail_window_size: 4,
            cut_tail_mean_quality: 20,
            cut_right_window_size: 4,
            cut_right_mean_quality: 20,
            disable_adapter_trimming: false,
            adapter_sequence: Option::None,
            adapter_sequence_r2: Option::None,
            trim_poly_g: false,
            poly_g_min_len: 10,
            disable_trim_poly_g: false,
            trim_poly_x: false,
            poly_x_min_len: 10,
            correction: false,
            overlap_len_require: 30,
            overlap_diff_limit: 5,
            overlap_diff_percent_limit: 20,
            thread: 2,
            pack_size: 1000,
            queue_depth: 0,
            compression: 4,
        }
    }
}

} // verus!
