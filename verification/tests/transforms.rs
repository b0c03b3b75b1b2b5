use fastq_prep::adapter_trimmer::AdapterTrimmer;
use fastq_prep::base_correction::{complement, BaseCorrector};
use fastq_prep::config::Cli;
use fastq_prep::matcher::Matcher;
use fastq_prep::overlap::{count_diff, reverse_complement, OverlapAnalyzer};
use fastq_prep::poly::{PolyGTrimmer, PolyXTrimmer};
use fastq_prep::record::FastqRecord;
use fastq_prep::report::Report;
use fastq_prep::sliding_window::SlidingWindow;

fn rec(seq: &str, qual: &str) -> FastqRecord {
    FastqRecord::new(
        b"@r".to_vec(),
        seq.as_bytes().to_vec(),
        b"+".to_vec(),
        qual.as_bytes().to_vec(),
    )
}

#[test]
fn complement_bases() {
    assert_eq!(complement(b'A'), b'T');
    assert_eq!(complement(b'T'), b'A');
    assert_eq!(complement(b'C'), b'G');
    assert_eq!(complement(b'G'), b'C');
    assert_eq!(complement(b'N'), b'N');
    assert_eq!(complement(b'x'), b'N');
}

#[test]
fn reverse_complement_simple() {
    assert_eq!(reverse_complement(b"AAACCCGGG"), b"CCCGGGTTT".to_vec());
    assert_eq!(reverse_complement(b""), Vec::<u8>::new());
    assert_eq!(reverse_complement(b"ACGTN"), b"NACGT".to_vec());
}

#[test]
fn count_diff_counts_mismatches() {
    assert_eq!(count_diff(b"ACGT", b"ACGT", 4), 0);
    assert_eq!(count_diff(b"ACGT", b"ACCA", 4), 2);
    assert_eq!(count_diff(b"ACGT", b"TGCA", 0), 0);
}

#[test]
fn matcher_one_insertion_hit() {
    // The first sequence carries one extra base in the middle.
    let nrm = b"ACGTACGT";
    let ins = b"ACGCTACGT";
    assert!(Matcher::match_with_one_insertion(ins, nrm, 8, 0));
}

#[test]
fn matcher_one_insertion_miss() {
    let nrm = b"ACGTACGT";
    let ins = b"ACGCTAGGA";
    assert!(!Matcher::match_with_one_insertion(ins, nrm, 8, 0));
    // Too short for the window: never a match.
    assert!(!Matcher::match_with_one_insertion(b"ACGT", nrm, 8, 5));
}

#[test]
fn adapter_exact_hit() {
    // Ten C bases, then the adapter itself: everything from the adapter
    // on is trimmed.
    let mut r = rec("CCCCCCCCCCAGATCGGAAG", "IIIIIIIIIIIIIIIIIIII");
    let mut rep = Report::default();
    let adapter = b"AGATCGGAAG".to_vec();
    let hit = AdapterTrimmer::trim_by_sequence(&mut r, Some(&adapter), &mut rep, false);
    assert!(hit);
    assert_eq!(r.seq, b"CCCCCCCCCC".to_vec());
    assert_eq!(r.qual, b"IIIIIIIIII".to_vec());
    assert_eq!(rep.adapter_trimmed_reads, 1);
    assert_eq!(rep.adapter_trimmed_bases, 10);
}

#[test]
fn adapter_no_hit_leaves_record() {
    let mut r = rec("TTTTTTTTTTTTTTTTTTTT", "IIIIIIIIIIIIIIIIIIII");
    let mut rep = Report::default();
    let adapter = b"AGATCGGAAG".to_vec();
    let hit = AdapterTrimmer::trim_by_sequence(&mut r, Some(&adapter), &mut rep, false);
    assert!(!hit);
    assert_eq!(r.seq, b"TTTTTTTTTTTTTTTTTTTT".to_vec());
    assert_eq!(rep.adapter_trimmed_reads, 0);
    assert_eq!(rep.adapter_trimmed_bases, 0);
}

#[test]
fn adapter_short_adapter_ignored() {
    let mut r = rec("CCCCCCCCCCAGATCGGAAG", "IIIIIIIIIIIIIIIIIIII");
    let mut rep = Report::default();
    let adapter = b"AGA".to_vec();
    assert!(!AdapterTrimmer::trim_by_sequence(&mut r, Some(&adapter), &mut rep, false));
    assert_eq!(r.seq.len(), 20);
}

#[test]
fn poly_g_tail_trimmed() {
    let mut r = rec("ACGTACGTACGGGGGGGGGG", "IIIIIIIIIIIIIIIIIIII");
    let mut rep = Report::default();
    PolyGTrimmer::trim_poly_g(&mut r, 10, &mut rep);
    assert_eq!(r.seq, b"ACGTACGTAC".to_vec());
    assert_eq!(r.qual.len(), 10);
    assert_eq!(rep.poly_g_trimmed_reads, 1);
    assert_eq!(rep.poly_g_trimmed_bases, 10);
}

#[test]
fn poly_g_short_run_kept() {
    let mut r = rec("ACGTACGTACGGGGG", "IIIIIIIIIIIIIII");
    let mut rep = Report::default();
    PolyGTrimmer::trim_poly_g(&mut r, 10, &mut rep);
    assert_eq!(r.seq.len(), 15);
    assert_eq!(rep.poly_g_trimmed_reads, 0);
}

#[test]
fn poly_x_tail_trimmed() {
    let mut r = rec("ACGTACGTACTTTTTTTTTT", "IIIIIIIIIIIIIIIIIIII");
    let mut rep = Report::default();
    PolyXTrimmer::trim_poly_x(&mut r, 10, &mut rep);
    assert_eq!(r.seq, b"ACGTACGTAC".to_vec());
    assert_eq!(rep.poly_x_trimmed_reads, 1);
    assert_eq!(rep.poly_x_trimmed_bases, 10);
}

#[test]
fn overlap_perfect_pair() {
    let r1 = rec("AAACCCGGG", "IIIIIIIII");
    let r2 = rec("CCCGGGTTT", "IIIIIIIII");
    let res = OverlapAnalyzer::analyze_with_params(&r1, &r2, 5, 5, 20);
    assert!(res.overlapped);
    assert_eq!(res.offset, 0);
    assert_eq!(res.overlap_len, 9);
    assert_eq!(res.diff, 0);
}

#[test]
fn overlap_too_short_for_default_minimum() {
    // The stock minimum overlap is ten bases; nine do not qualify.
    let r1 = rec("AAACCCGGG", "IIIIIIIII");
    let r2 = rec("CCCGGGTTT", "IIIIIIIII");
    let res = OverlapAnalyzer::analyze(&r1, &r2);
    assert!(!res.overlapped);
    assert_eq!(res.offset, 0);
    assert_eq!(res.overlap_len, 0);
    assert_eq!(res.diff, usize::MAX);
}

#[test]
fn overlap_roundtrip_window_matches() {
    // A perfect overlap window equals the reverse complement of the tail
    // of the mate.
    let r1 = rec("TTAAACCCGGG", "IIIIIIIIIII");
    let r2 = rec("CCCGGGTTT", "IIIIIIIII");
    let res = OverlapAnalyzer::analyze_with_params(&r1, &r2, 5, 5, 20);
    assert!(res.overlapped);
    assert_eq!(res.offset, 2);
    assert_eq!(res.overlap_len, 9);
    assert_eq!(res.diff, 0);
    let off = res.offset as usize;
    let window = &r1.seq[off..off + res.overlap_len];
    let tail = &r2.seq[r2.seq.len() - res.overlap_len..];
    assert_eq!(window.to_vec(), reverse_complement(tail));
}

#[test]
fn base_correction_rewrites_lower_quality() {
    // Position two of r1 disagrees with the mate and has the lower
    // quality: r1 takes the mate's call.
    let mut r1 = rec("AAACCCGGG", "II!IIIIII");
    let mut r2 = rec("CCCGGGTTT", "IIIIIIIII");
    // complement of r2[6] is A; make r1[2] disagree.
    r1.seq[2] = b'G';
    BaseCorrector::correct(&mut r1, &mut r2, 0, 9);
    assert_eq!(r1.seq, b"AAACCCGGG".to_vec());
    assert_eq!(r1.qual, b"IIIIIIIII".to_vec());
    assert_eq!(r2.seq, b"CCCGGGTTT".to_vec());
}

#[test]
fn base_correction_rewrites_mate_on_higher_quality() {
    // Same disagreement, but r1 has the higher quality: the mate is
    // rewritten instead.
    let mut r1 = rec("AAACCCGGG", "IIIIIIIII");
    let mut r2 = rec("CCCGGGTTT", "IIIIII!II");
    r2.seq[6] = b'C';
    BaseCorrector::correct(&mut r1, &mut r2, 0, 9);
    assert_eq!(r1.seq, b"AAACCCGGG".to_vec());
    assert_eq!(r2.seq, b"CCCGGGTTT".to_vec());
    assert_eq!(r2.qual, b"IIIIIIIII".to_vec());
}

#[test]
fn cut_front_drops_leading_low_quality() {
    // Window of four with mean twenty: the first good window starts at
    // position two, so positions zero through four are dropped.
    let mut cli = Cli::default();
    cli.cut_front = true;
    let mut r = rec("ACGTACGTACGT", "!!!!IIIIIIII");
    let mut front = 0usize;
    let kept = SlidingWindow::trim_and_cut(&mut r, &cli, &mut front);
    assert!(kept);
    // The first window whose raw sum reaches the threshold starts at
    // two; the cut advances to that window's last base, so five bases go.
    assert_eq!(r.seq, b"CGTACGT".to_vec());
    assert_eq!(front, 5);
}

#[test]
fn cut_front_discards_all_when_no_window_qualifies() {
    let mut cli = Cli::default();
    cli.cut_front = true;
    let mut r = rec("ACGTACGT", "!!!!!!!!");
    let mut front = 0usize;
    let kept = SlidingWindow::trim_and_cut(&mut r, &cli, &mut front);
    assert!(!kept);
    assert_eq!(r.seq.len(), 0);
    assert_eq!(r.qual.len(), 0);
}

#[test]
fn cut_tail_drops_trailing_low_quality() {
    let mut cli = Cli::default();
    cli.cut_tail = true;
    let mut r = rec("ACGTACGTACGT", "IIIIIIIII!!!");
    let mut front = 0usize;
    let kept = SlidingWindow::trim_and_cut(&mut r, &cli, &mut front);
    assert!(kept);
    // The first good window from the back ends at position ten, so the
    // cut retreats to that window's start and keeps eight bases.
    assert_eq!(r.seq, b"ACGTACGT".to_vec());
    assert_eq!(front, 0);
}

#[test]
fn cut_right_cuts_from_first_bad_window() {
    let mut cli = Cli::default();
    cli.cut_right = true;
    let mut r = rec("ACGTACGTACGT", "IIIIIIII!!!!");
    let mut front = 0usize;
    let kept = SlidingWindow::trim_and_cut(&mut r, &cli, &mut front);
    assert!(kept);
    // The first bad window starts at five; walking forward over good
    // bases reaches position eight, and the rest is cut.
    assert_eq!(r.seq, b"ACGTACGT".to_vec());
}

#[test]
fn no_cutters_leave_record_untouched() {
    let cli = Cli::default();
    let mut r = rec("ACGTACGT", "!!!!!!!!");
    let mut front = 0usize;
    let kept = SlidingWindow::trim_and_cut(&mut r, &cli, &mut front);
    assert!(kept);
    assert_eq!(r.seq, b"ACGTACGT".to_vec());
    assert_eq!(front, 0);
}

#[test]
fn poly_x_tolerates_sparse_interlopers() {
    // One interloper per eight scanned bases is allowed: a single A inside
    // a twelve-base T run still trims, interloper included.
    let mut r = rec("ACGTACGTACTTTTATTTTTTT", "IIIIIIIIIIIIIIIIIIIIII");
    let mut rep = Report::default();
    PolyXTrimmer::trim_poly_x(&mut r, 10, &mut rep);
    assert_eq!(r.seq, b"ACGTACGTAC".to_vec());
    assert_eq!(rep.poly_x_trimmed_bases, 12);
}

#[test]
fn overlap_prefers_fewer_differences_over_length() {
    // The full-length alignment has one difference; a one-shorter shift
    // has none and wins.
    let r1 = rec("AAAAAAAAAT", "IIIIIIIIII");
    let r2 = rec("TTTTTTTTTT", "IIIIIIIIII");
    let res = OverlapAnalyzer::analyze_with_params(&r1, &r2, 5, 5, 20);
    assert!(res.overlapped);
    assert_eq!(res.offset, -1);
    assert_eq!(res.overlap_len, 9);
    assert_eq!(res.diff, 0);
}
