use fastq_prep::adapter_trimmer::AdapterTrimmer;
use fastq_prep::compress::{compress_task, pack_stream_bytes, CompressTask, CompressedResult};
use fastq_prep::config::Cli;
use fastq_prep::fastq::{FastqError, Reader, Writer};
use fastq_prep::filter::Filter;
use fastq_prep::overlap::reverse_complement;
use fastq_prep::pipeline::{process_pack, OrderedJoiner, Pack, PackBuilder, ProcessedPack};
use fastq_prep::record::FastqRecord;
use fastq_prep::report::Report;

fn rec(seq: &str, qual: &str) -> FastqRecord {
    FastqRecord::new(
        b"@r".to_vec(),
        seq.as_bytes().to_vec(),
        b"+".to_vec(),
        qual.as_bytes().to_vec(),
    )
}

fn se_pack(id: u64, recs: Vec<FastqRecord>) -> Pack {
    Pack { id, data: recs.into_iter().map(|r| (r, None)).collect() }
}

#[test]
fn trivial_se_pass() {
    let mut cli = Cli::default();
    cli.length_required = 5;
    let filter = Filter::new(cli);
    let pack = se_pack(0, vec![rec("ACGTACGTAC", "IIIIIIIIII")]);
    let out = process_pack(&filter, pack);
    assert_eq!(out.id, 0);
    assert_eq!(out.data.len(), 1);
    assert_eq!(out.data[0].0.seq, b"ACGTACGTAC".to_vec());
    assert_eq!(out.data[0].0.qual, b"IIIIIIIIII".to_vec());
    assert_eq!(out.report.total_reads, 1);
    assert_eq!(out.report.passed_reads, 1);
}

#[test]
fn too_short_read_rejected() {
    let mut cli = Cli::default();
    cli.length_required = 5;
    let filter = Filter::new(cli);
    let pack = se_pack(0, vec![rec("ACGT", "IIII")]);
    let out = process_pack(&filter, pack);
    assert_eq!(out.data.len(), 0);
    assert_eq!(out.report.total_reads, 1);
    assert_eq!(out.report.passed_reads, 0);
    assert_eq!(out.report.failed_too_short, 1);
}

#[test]
fn n_excess_read_rejected() {
    let mut cli = Cli::default();
    cli.length_required = 5;
    let filter = Filter::new(cli);
    let pack = se_pack(0, vec![rec("NNNNNNACGTAC", "IIIIIIIIIIII")]);
    let out = process_pack(&filter, pack);
    assert_eq!(out.data.len(), 0);
    assert_eq!(out.report.failed_n_excess, 1);
}

#[test]
fn low_average_quality_rejected() {
    let mut cli = Cli::default();
    cli.length_required = 5;
    cli.average_qual = 30;
    let filter = Filter::new(cli);
    let pack = se_pack(0, vec![rec("ACGTACGTAC", "!!!!!!!!!!")]);
    let out = process_pack(&filter, pack);
    assert_eq!(out.data.len(), 0);
    assert_eq!(out.report.failed_low_average_qual, 1);
}

#[test]
fn low_quality_share_rejected() {
    let mut cli = Cli::default();
    cli.length_required = 5;
    let filter = Filter::new(cli);
    // Half of the bases are far below the qualified score; the limit is
    // forty percent.
    let pack = se_pack(0, vec![rec("ACGTACGTAC", "!!!!!IIIII")]);
    let out = process_pack(&filter, pack);
    assert_eq!(out.data.len(), 0);
    assert_eq!(out.report.failed_low_quality, 1);
}

#[test]
fn counters_add_up_once_per_read() {
    let mut cli = Cli::default();
    cli.length_required = 5;
    let filter = Filter::new(cli);
    let pack = se_pack(
        0,
        vec![
            rec("ACGTACGTAC", "IIIIIIIIII"),
            rec("ACG", "III"),
            rec("NNNNNNACGTAC", "IIIIIIIIIIII"),
            rec("ACGTACGTAC", "!!!!!IIIII"),
        ],
    );
    let out = process_pack(&filter, pack);
    let r = &out.report;
    assert_eq!(r.total_reads, 4);
    assert_eq!(
        r.total_reads,
        r.passed_reads + r.failed_too_short + r.failed_low_quality + r.failed_n_excess
            + r.failed_low_average_qual
    );
}

#[test]
fn order_is_kept_within_a_pack() {
    let mut cli = Cli::default();
    cli.length_required = 5;
    let filter = Filter::new(cli);
    let pack = se_pack(
        0,
        vec![
            rec("AAAAAAAAAA", "IIIIIIIIII"),
            rec("ACG", "III"),
            rec("CCCCCCCCCC", "IIIIIIIIII"),
            rec("GGGGGGGGGG", "IIIIIIIIII"),
        ],
    );
    let out = process_pack(&filter, pack);
    assert_eq!(out.data.len(), 3);
    assert_eq!(out.data[0].0.seq, b"AAAAAAAAAA".to_vec());
    assert_eq!(out.data[1].0.seq, b"CCCCCCCCCC".to_vec());
    assert_eq!(out.data[2].0.seq, b"GGGGGGGGGG".to_vec());
}

#[test]
fn pe_overlap_and_correction() {
    let mut cli = Cli::default();
    cli.length_required = 5;
    cli.correction = true;
    cli.overlap_len_require = 5;
    cli.disable_adapter_trimming = true;
    let filter = Filter::new(cli);
    let mut report = Report::default();
    let (r1, r2) = filter.trim_pair(
        rec("AAACCCGGG", "IIIIIIIII"),
        rec("CCCGGGTTT", "IIIIIIIII"),
        &mut report,
    );
    // Perfect agreement: nothing changes, one overlap observed with no
    // differences.
    assert_eq!(r1.seq, b"AAACCCGGG".to_vec());
    assert_eq!(r2.seq, b"CCCGGGTTT".to_vec());
    assert_eq!(report.pe_overlap_count, 1);
    assert_eq!(report.pe_overlap_diff_sum, 0);
}

#[test]
fn pe_read_through_adapter_trimmed() {
    // Ten insert bases, then six adapter bases on each side.  Without an
    // explicit adapter the overlap geometry cuts both reads back to the
    // insert.
    let insert = "ACGTACGTAC";
    let r1seq = format!("{}{}", insert, "AGATCG");
    let r2seq = {
        let rc = reverse_complement(insert.as_bytes());
        let mut s = String::from_utf8(rc).unwrap();
        s.push_str("CCTTGG");
        s
    };
    let mut cli = Cli::default();
    cli.length_required = 5;
    cli.overlap_len_require = 10;
    let filter = Filter::new(cli);
    let mut report = Report::default();
    let (r1, r2) = filter.trim_pair(
        rec(&r1seq, "IIIIIIIIIIIIIIII"),
        rec(&r2seq, "IIIIIIIIIIIIIIII"),
        &mut report,
    );
    assert_eq!(r1.seq, insert.as_bytes().to_vec());
    assert_eq!(r2.seq, reverse_complement(insert.as_bytes()));
    assert_eq!(report.adapter_trimmed_reads, 2);
    assert_eq!(report.adapter_trimmed_bases, 12);
}

#[test]
fn filter_is_idempotent_without_trimming() {
    // Running the pass/fail filter twice over its own output changes
    // nothing and trims nothing the second time.
    let mut cli = Cli::default();
    cli.length_required = 5;
    cli.disable_adapter_trimming = true;
    let filter = Filter::new(cli);
    let pack = se_pack(
        0,
        vec![rec("ACGTACGTAC", "IIIIIIIIII"), rec("ACG", "III"), rec("CCCCCCCCCC", "IIIIIIIIII")],
    );
    let once = process_pack(&filter, pack);
    let again = process_pack(&filter, Pack { id: 0, data: once.data.clone() });
    let a: Vec<Vec<u8>> = once.data.iter().map(|p| p.0.seq.clone()).collect();
    let b: Vec<Vec<u8>> = again.data.iter().map(|p| p.0.seq.clone()).collect();
    assert_eq!(a, b);
    assert_eq!(again.report.passed_reads, again.report.total_reads);
    assert_eq!(again.report.adapter_trimmed_reads, 0);
    assert_eq!(again.report.poly_g_trimmed_reads, 0);
    assert_eq!(again.report.poly_x_trimmed_reads, 0);
}

#[test]
fn report_merge_sums_counters() {
    let mut a = Report::default();
    a.total_reads = 3;
    a.passed_reads = 2;
    a.failed_too_short = 1;
    a.pe_overlap_count = 2;
    a.pe_overlap_diff_sum = 5;
    let mut b = Report::default();
    b.total_reads = 4;
    b.passed_reads = 4;
    b.pe_overlap_count = 1;
    b.pe_overlap_diff_sum = 1;
    a.merge(&b);
    assert_eq!(a.total_reads, 7);
    assert_eq!(a.passed_reads, 6);
    assert_eq!(a.failed_too_short, 1);
    assert_eq!(a.pe_overlap_count, 3);
    assert_eq!(a.pe_overlap_diff_sum, 6);
}

#[test]
fn pack_builder_groups_and_numbers() {
    let mut b = PackBuilder::new(2);
    assert!(b.push((rec("AAAA", "IIII"), None)).is_none());
    let p0 = b.push((rec("CCCC", "IIII"), None)).unwrap();
    assert_eq!(p0.id, 0);
    assert_eq!(p0.data.len(), 2);
    assert!(b.push((rec("GGGG", "IIII"), None)).is_none());
    let p1 = b.finish().unwrap();
    assert_eq!(p1.id, 1);
    assert_eq!(p1.data.len(), 1);
    assert!(b.finish().is_none());
}

#[test]
fn joiner_releases_packs_in_id_order() {
    fn pp(id: u64) -> ProcessedPack {
        ProcessedPack { id, data: Vec::new(), report: Report::default() }
    }
    let mut j = OrderedJoiner::new();
    assert_eq!(j.push(pp(1)).len(), 0);
    assert_eq!(j.push(pp(2)).len(), 0);
    let out = j.push(pp(0));
    let ids: Vec<u64> = out.iter().map(|p| p.id).collect();
    assert_eq!(ids, vec![0, 1, 2]);
    let out2 = j.push(pp(3));
    assert_eq!(out2.len(), 1);
    assert_eq!(out2[0].id, 3);
}

#[test]
fn reader_parses_records_and_strips_crlf() {
    let data = b"@a\r\nACGT\r\n+\r\nIIII\r\n@b\nTTTT\n+\nJJJJ\n".to_vec();
    let mut rd = Reader::new(data);
    let r1 = rd.next_record().unwrap().unwrap();
    assert_eq!(r1.name, b"@a".to_vec());
    assert_eq!(r1.seq, b"ACGT".to_vec());
    assert_eq!(r1.plus, b"+".to_vec());
    assert_eq!(r1.qual, b"IIII".to_vec());
    let r2 = rd.next_record().unwrap().unwrap();
    assert_eq!(r2.name, b"@b".to_vec());
    assert_eq!(r2.qual, b"JJJJ".to_vec());
    assert!(rd.next_record().unwrap().is_none());
}

#[test]
fn reader_reports_truncated_record() {
    let data = b"@a\nACGT\n+\n".to_vec();
    let mut rd = Reader::new(data);
    assert!(matches!(rd.next_record(), Err(FastqError::Truncated)));
}

#[test]
fn reader_handles_missing_final_newline() {
    let data = b"@a\nACGT\n+\nIIII".to_vec();
    let mut rd = Reader::new(data);
    let r = rd.next_record().unwrap().unwrap();
    assert_eq!(r.qual, b"IIII".to_vec());
    assert!(rd.next_record().unwrap().is_none());
}

#[test]
fn writer_emits_four_lines_per_record() {
    let mut w = Writer::new();
    w.write_record(&rec("ACGT", "IIII"));
    let bytes = w.take_bytes();
    assert_eq!(bytes, b"@r\nACGT\n+\nIIII\n".to_vec());
    assert_eq!(w.take_bytes(), Vec::<u8>::new());
}

#[test]
fn gzip_round_trip_through_reader() {
    let mut w = Writer::new();
    w.write_record(&rec("ACGTACGTAC", "IIIIIIIIII"));
    let raw = w.take_bytes();
    let task = CompressTask { id: 7, which: 1, data: raw.clone() };
    let done = compress_task(task, 4);
    assert_eq!(done.id, 7);
    assert_eq!(done.which, 1);
    assert_ne!(done.data, raw);
    let mut rd = Reader::from_gzip(done.data).unwrap();
    let r = rd.next_record().unwrap().unwrap();
    assert_eq!(r.seq, b"ACGTACGTAC".to_vec());
    assert!(rd.next_record().unwrap().is_none());
}

#[test]
fn gzip_decode_rejects_garbage() {
    let r = Reader::from_gzip(b"this is not gzip".to_vec());
    assert!(matches!(r, Err(FastqError::BadGzip)));
}

#[test]
fn static_trims_apply_after_cutting() {
    let mut cli = Cli::default();
    cli.length_required = 2;
    cli.trim_front1 = 2;
    cli.trim_tail1 = 3;
    let filter = Filter::new(cli);
    let mut report = Report::default();
    let out = filter.trim_record(rec("ACGTACGTAC", "IIIIIIIIII"), false, &mut report);
    assert_eq!(out.seq, b"GTACG".to_vec());
    assert_eq!(out.qual.len(), 5);
}

#[test]
fn max_len_caps_the_read() {
    let mut cli = Cli::default();
    cli.length_required = 2;
    cli.max_len1 = 4;
    let filter = Filter::new(cli);
    let mut report = Report::default();
    let out = filter.trim_record(rec("ACGTACGTAC", "IIIIIIIIII"), false, &mut report);
    assert_eq!(out.seq, b"ACGT".to_vec());
}

#[test]
fn adapter_covering_read_start_empties_it() {
    // A sixteen-base adapter scans from position minus four: a read that
    // is the adapter's tail matches there and is emptied entirely.
    let adapter = b"AGATCGGAAGAGCACA".to_vec();
    let mut r = rec("CGGAAGAGCACA", "IIIIIIIIIIII");
    let mut report = Report::default();
    let hit = AdapterTrimmer::trim_by_sequence(&mut r, Some(&adapter), &mut report, false);
    assert!(hit);
    assert_eq!(r.seq.len(), 0);
    assert_eq!(r.qual.len(), 0);
    assert_eq!(report.adapter_trimmed_reads, 1);
    assert_eq!(report.adapter_trimmed_bases, 12);
}

#[test]
fn pe_counters_add_up() {
    let mut cli = Cli::default();
    cli.length_required = 5;
    let filter = Filter::new(cli);
    let pack = Pack {
        id: 0,
        data: vec![
            (rec("AAACCCGGG", "IIIIIIIII"), Some(rec("CCCGGGTTT", "IIIIIIIII"))),
            (rec("ACG", "III"), Some(rec("CCCGGGTTT", "IIIIIIIII"))),
            (rec("AAACCCGGG", "IIIIIIIII"), Some(rec("ACG", "III"))),
        ],
    };
    let out = process_pack(&filter, pack);
    let r = &out.report;
    // One pair passes; in each failing pair only the first failing mate
    // counts.
    assert_eq!(r.total_reads, 3);
    assert_eq!(r.passed_reads, 1);
    assert_eq!(r.failed_too_short, 2);
    assert_eq!(
        r.total_reads,
        r.passed_reads + r.failed_too_short + r.failed_low_quality + r.failed_n_excess
            + r.failed_low_average_qual
    );
    assert_eq!(out.data.len(), 1);
}

#[test]
fn three_packs_out_of_order_keep_input_order() {
    // Order preservation, end to end: packs processed and delivered out
    // of order leave the writer in input order.
    let mut cli = Cli::default();
    cli.length_required = 5;
    let filter = Filter::new(cli);
    let packs = vec![
        se_pack(0, vec![rec("AAAAAAAAAA", "IIIIIIIIII")]),
        se_pack(1, vec![rec("CCCCCCCCCC", "IIIIIIIIII"), rec("ACG", "III")]),
        se_pack(2, vec![rec("GGGGGGGGGG", "IIIIIIIIII")]),
    ];
    let mut processed: Vec<ProcessedPack> =
        packs.into_iter().map(|p| process_pack(&filter, p)).collect();
    // Deliver in the order 2, 0, 1.
    processed.rotate_left(2);
    let mut joiner = OrderedJoiner::new();
    let mut w = Writer::new();
    let mut global = Report::default();
    for p in processed {
        for ready in joiner.push(p) {
            global.merge(&ready.report);
            for (r1, _) in &ready.data {
                w.write_record(r1);
            }
        }
    }
    let bytes = w.take_bytes();
    assert_eq!(
        bytes,
        b"@r\nAAAAAAAAAA\n+\nIIIIIIIIII\n@r\nCCCCCCCCCC\n+\nIIIIIIIIII\n@r\nGGGGGGGGGG\n+\nIIIIIIIIII\n"
            .to_vec()
    );
    assert_eq!(global.total_reads, 4);
    assert_eq!(global.passed_reads, 3);
    assert_eq!(global.failed_too_short, 1);
}

#[test]
fn window_discard_surfaces_as_too_short() {
    // A read the front cutter discards entirely fails the length
    // predicate downstream.
    let mut cli = Cli::default();
    cli.length_required = 5;
    cli.cut_front = true;
    let filter = Filter::new(cli);
    let pack = se_pack(0, vec![rec("ACGTACGTAC", "!!!!!!!!!!")]);
    let out = process_pack(&filter, pack);
    assert_eq!(out.data.len(), 0);
    assert_eq!(out.report.failed_too_short, 1);
}

#[test]
fn default_configuration_values() {
    let cli = Cli::default();
    assert_eq!(cli.length_required, 15);
    assert_eq!(cli.qualified_quality_phred, 15);
    assert_eq!(cli.unqualified_percent_limit, 40);
    assert_eq!(cli.average_qual, 0);
    assert_eq!(cli.n_base_limit, 5);
    assert_eq!(cli.poly_g_min_len, 10);
    assert_eq!(cli.poly_x_min_len, 10);
    assert_eq!(cli.overlap_len_require, 30);
    assert_eq!(cli.overlap_diff_limit, 5);
    assert_eq!(cli.overlap_diff_percent_limit, 20);
    assert_eq!(cli.pack_size, 1000);
    assert!(!cli.correction && !cli.trim_poly_g && !cli.trim_poly_x);
}

#[test]
fn pack_stream_bytes_selects_by_pack_and_stream() {
    let results = vec![
        CompressedResult { id: 3, which: 2, data: b"zz".to_vec() },
        CompressedResult { id: 3, which: 1, data: b"aa".to_vec() },
        CompressedResult { id: 4, which: 1, data: b"bb".to_vec() },
    ];
    assert_eq!(pack_stream_bytes(&results, 3, 1), b"aa".to_vec());
    assert_eq!(pack_stream_bytes(&results, 3, 2), b"zz".to_vec());
    assert_eq!(pack_stream_bytes(&results, 4, 2), Vec::<u8>::new());
}

#[test]
fn writer_reader_round_trip() {
    let mut w = Writer::new();
    w.write_record(&rec("ACGTACGTAC", "IIIIIIIIII"));
    w.write_record(&rec("TTTT", "JJJJ"));
    let mut rd = Reader::new(w.take_bytes());
    let a = rd.next_record().unwrap().unwrap();
    let b = rd.next_record().unwrap().unwrap();
    assert_eq!(a.seq, b"ACGTACGTAC".to_vec());
    assert_eq!(b.seq, b"TTTT".to_vec());
    assert!(rd.next_record().unwrap().is_none());
}

#[test]
fn gzip_multi_member_input_decodes() {
    // Two gzip members back to back decode as one stream.
    let mut w = Writer::new();
    w.write_record(&rec("ACGT", "IIII"));
    let first = compress_task(CompressTask { id: 0, which: 1, data: w.take_bytes() }, 4);
    w.write_record(&rec("TTTT", "JJJJ"));
    let second = compress_task(CompressTask { id: 0, which: 1, data: w.take_bytes() }, 4);
    let mut joined = first.data.clone();
    joined.extend_from_slice(&second.data);
    let mut rd = Reader::from_gzip(joined).unwrap();
    let a = rd.next_record().unwrap().unwrap();
    let b = rd.next_record().unwrap().unwrap();
    assert_eq!(a.seq, b"ACGT".to_vec());
    assert_eq!(b.seq, b"TTTT".to_vec());
    assert!(rd.next_record().unwrap().is_none());
}
