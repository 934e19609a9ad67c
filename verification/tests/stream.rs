//! Tests for the block stream, seeking, and the variant/alignment
//! synchronizer, over compressed data built in memory.
use flate2::write::GzEncoder;
use flate2::Compression;
use std::io::Write;

use taf_tools::sync::annotate_ancestral_allele;
use taf_tools::sync::select_ancestral;
use taf_tools::sync::RecordOutcome;
use taf_tools::sync::Synchronizer;
use taf_tools::tai::TaiIndex;
use taf_tools::taf_stream::TafAlignmentIterator;
use taf_tools::taf_stream::TafError;
use taf_tools::taf_stream::TafParser;
use taf_tools::vcf::Record;

/// One gzip member holding the given text.
fn gz_block(text: &str) -> Vec<u8> {
    let mut enc = GzEncoder::new(Vec::new(), Compression::default());
    enc.write_all(text.as_bytes()).unwrap();
    enc.finish().unwrap()
}

/// A block-compressed alignment file: one member per block.
fn gz_file(blocks: &[&str]) -> (Vec<u8>, Vec<usize>) {
    let mut data = Vec::new();
    let mut offsets = Vec::new();
    for b in blocks {
        offsets.push(data.len());
        data.extend_from_slice(&gz_block(b));
    }
    (data, offsets)
}

const HEADER_BLOCK: &str = "#taf version:1 run_length_encode_bases:0\n";

const CHR1_BLOCK: &str = "\
AA ; i 0 ref.chr1 99 + i 1 Anc1.c 10 +\n\
AA\n\
CC\n\
AA\n";

const CHR2_BLOCK: &str = "\
GG ; s 0 ref.chr2 4 + s 1 Anc1.c2 50 +\n\
TG\n";

fn test_file() -> (Vec<u8>, Vec<String>) {
    let (data, offsets) = gz_file(&[HEADER_BLOCK, CHR1_BLOCK, CHR2_BLOCK]);
    let tai = vec![
        format!("ref.chr1\t99\t{}", offsets[1]),
        format!("ref.chr2\t4\t{}", offsets[2]),
    ];
    (data, tai)
}

fn record(chrom: &str, pos: u64, r: &str, a: &str) -> Record {
    Record {
        chrom: chrom.to_string(),
        pos,
        id: ".".to_string(),
        ref_: r.to_string(),
        alt: a.to_string(),
        qual: ".".to_string(),
        filter: ".".to_string(),
        info: Vec::new(),
        format: Vec::new(),
        samples: Vec::new(),
    }
}

#[test]
fn open_and_stream_columns() {
    let (data, _) = test_file();
    let parser = TafParser::from_bytes(data).unwrap();
    assert!(!parser.run_length_encode);
    let mut it = TafAlignmentIterator::new(parser);
    // First column anchors row 0 at offset 99 on chr1.
    let c0 = it.next().unwrap().unwrap();
    assert_eq!(c0.col_index, 0);
    assert_eq!(c0.column.alleles, vec!['A', 'A']);
    assert!(c0.ref_matches_pos(0, 100));
    assert_eq!(c0.allele_for_species("Anc1"), Some((1, 'A')));
    // Implicit advance across the following columns.
    let c1 = it.next().unwrap().unwrap();
    assert!(c1.ref_matches_pos(0, 101));
    let c2 = it.next().unwrap().unwrap();
    assert!(c2.ref_matches_pos(0, 102));
    assert_eq!(c2.allele_for_species("Anc1"), Some((1, 'C')));
    let c3 = it.next().unwrap().unwrap();
    assert!(c3.ref_matches_pos(0, 103));
    // The next block opens transparently: chr2 re-anchors row 0.
    let c4 = it.next().unwrap().unwrap();
    assert!(c4.has_chromosome("chr2"));
    assert!(!c4.has_chromosome("chr1"));
    let c5 = it.next().unwrap().unwrap();
    assert!(c5.ref_matches_pos(0, 6));
    assert!(it.next().is_none());
}

#[test]
fn open_errors() {
    assert!(matches!(
        TafParser::from_bytes(vec![9, 9, 9]),
        Err(TafError::BadBlock)
    ));
    let bad = gz_block("not a header\nACGT\n");
    assert!(matches!(
        TafParser::from_bytes(bad),
        Err(TafError::MissingHeader)
    ));
}

#[test]
fn seek_consistency() {
    // Reopening at the block containing a position, then scanning,
    // yields the same columns in no more pulls than scanning from the
    // file start.
    let (data, _) = test_file();
    let (_, offsets) = gz_file(&[HEADER_BLOCK, CHR1_BLOCK, CHR2_BLOCK]);

    // Path one: from the start.
    let parser = TafParser::from_bytes(data.clone()).unwrap();
    let mut from_start = TafAlignmentIterator::new(parser);
    let mut start_pulls = 0;
    let mut start_raw = None;
    loop {
        match from_start.next() {
            Some(Ok(c)) => {
                start_pulls += 1;
                if c.ref_matches_pos(0, 102) {
                    start_raw = Some(c.column.raw_bases.clone());
                    break;
                }
            }
            _ => break,
        }
    }

    // Path two: reopened at the chr1 block.
    let parser2 = TafParser::from_bytes(data).unwrap();
    let mut seeked = TafAlignmentIterator::new(parser2);
    assert!(seeked.reopen_at(offsets[1], 0));
    let mut seek_pulls = 0;
    let mut seek_raw = None;
    loop {
        match seeked.next() {
            Some(Ok(c)) => {
                seek_pulls += 1;
                if c.ref_matches_pos(0, 102) {
                    seek_raw = Some(c.column.raw_bases.clone());
                    break;
                }
            }
            _ => break,
        }
    }
    assert_eq!(start_raw.as_deref(), Some("CC"));
    assert_eq!(seek_raw.as_deref(), Some("CC"));
    assert!(seek_pulls <= start_pulls);
}

#[test]
fn synchronizer_scenario() {
    // Reference offsets 99..=102 (1-based positions 100..=103) with
    // ancestor alleles A,A,C,A: position 102 resolves to 'C' as a
    // match, position 103 to 'A' as a match, and a position beyond the
    // stream has no ancestral call.
    let (data, tai) = test_file();
    let records = vec![
        record("chr1", 102, "C", "G"),
        record("chr1", 103, "A", "T"),
        record("chr1", 150, "A", "T"),
    ];
    let out = annotate_ancestral_allele(data, &tai, &records, &"1".to_string()).unwrap();
    // One outcome per record, in order; the beyond-stream variant is a
    // missing call, not a skip.
    assert_eq!(out.outcomes.len(), 3);
    assert!(matches!(out.outcomes[0], RecordOutcome::Annotated(_, true)));
    assert!(matches!(out.outcomes[1], RecordOutcome::Annotated(_, true)));
    assert!(matches!(out.outcomes[2], RecordOutcome::MissingCall));
    assert_eq!(out.rows.len(), 2);
    assert_eq!(out.rows[0].chrom, "chr1");
    assert_eq!(out.rows[0].pos, 102);
    assert_eq!(out.rows[0].allele, 'C');
    assert_eq!(out.rows[1].pos, 103);
    assert_eq!(out.rows[1].allele, 'A');
    assert_eq!(out.summary.matches, 2);
    assert_eq!(out.summary.mismatches, 0);
    assert_eq!(out.summary.missing, 1);
}

#[test]
fn chromosome_switch_reseeks_once() {
    // chr1, chr1, chr2: one reseek to open chr1, none between the two
    // chr1 records, and exactly one more on the switch to chr2.
    let (data, tai) = test_file();
    let index = TaiIndex::from_lines(&tai);
    let parser = TafParser::from_bytes(data).unwrap();
    let stream = TafAlignmentIterator::new(parser);
    let mut sync = Synchronizer::new(stream, index);
    let labels = vec!["Anc1".to_string()];

    let r1 = sync.process_record(&record("chr1", 102, "C", "G"), &labels);
    assert!(matches!(r1, RecordOutcome::Annotated(_, true)));
    assert_eq!(sync.reseeks(), 1);

    let r2 = sync.process_record(&record("chr1", 103, "A", "T"), &labels);
    assert!(matches!(r2, RecordOutcome::Annotated(_, true)));
    assert_eq!(sync.reseeks(), 1);

    let r3 = sync.process_record(&record("chr2", 6, "T", "G"), &labels);
    assert!(matches!(r3, RecordOutcome::Annotated(_, _)));
    assert_eq!(sync.reseeks(), 2);

    // A chromosome with no checkpoint is skipped without a reseek.
    let r4 = sync.process_record(&record("chr9", 1, "A", "T"), &labels);
    assert!(matches!(r4, RecordOutcome::Skipped));
    assert_eq!(sync.reseeks(), 2);
}

#[test]
fn mismatch_counts_as_derived() {
    // On chr2, position 6 pairs row 0 offset 5 with ancestor allele G;
    // a record whose alternate is G yields a mismatch row.
    let (data, tai) = test_file();
    let records = vec![record("chr2", 6, "T", "G")];
    let out = annotate_ancestral_allele(data, &tai, &records, &"1".to_string()).unwrap();
    assert_eq!(out.rows.len(), 1);
    assert_eq!(out.rows[0].allele, 'G');
    assert_eq!(out.summary.matches, 0);
    assert_eq!(out.summary.mismatches, 1);
}

#[test]
fn ancestor_priority_uses_first_qualifying() {
    // With ancestors [Anc1, Anc2], a gap for Anc1 and a valid alternate
    // base for Anc2, the call uses Anc2's allele: priority order, no
    // vote over other rows.
    let header = HEADER_BLOCK;
    let block = "\
A-T ; i 0 ref.chr1 9 + i 1 Anc1.c 0 + i 2 Anc2.c 0 +\n";
    let (data, offsets) = gz_file(&[header, block]);
    let tai = vec![format!("ref.chr1\t9\t{}", offsets[1])];
    let records = vec![record("chr1", 10, "C", "T")];
    let out = annotate_ancestral_allele(data.clone(), &tai, &records, &"1,2".to_string()).unwrap();
    assert_eq!(out.rows.len(), 1);
    assert_eq!(out.rows[0].allele, 'T');
    assert_eq!(out.summary.mismatches, 1);

    // The same column through the selection function directly.
    let parser = TafParser::from_bytes(data).unwrap();
    let mut it = TafAlignmentIterator::new(parser);
    let col = it.next().unwrap().unwrap();
    let labels = vec!["Anc1".to_string(), "Anc2".to_string()];
    assert_eq!(select_ancestral(&col, &labels, 'C', 'T'), Some('T'));
    // The same call with the priority order reversed.
    let labels_rev = vec!["Anc2".to_string(), "Anc1".to_string()];
    assert_eq!(select_ancestral(&col, &labels_rev, 'C', 'T'), Some('T'));
}

#[test]
fn missing_when_no_candidate_qualifies() {
    let (data, tai) = test_file();
    // At position 102 the ancestor allele is C; a record offering
    // neither C as reference nor C as alternate gets no call.
    let records = vec![record("chr1", 102, "T", "G")];
    let out = annotate_ancestral_allele(data, &tai, &records, &"1".to_string()).unwrap();
    assert_eq!(out.rows.len(), 0);
    assert_eq!(out.summary.missing, 1);
}

#[test]
fn bad_ancestor_list_is_rejected() {
    let (data, tai) = test_file();
    let records = vec![record("chr1", 102, "C", "G")];
    let r = annotate_ancestral_allele(data, &tai, &records, &"1,a".to_string());
    assert!(r.is_err());
}

#[test]
fn bad_block_mid_stream() {
    // A valid header block followed by bytes that are no block: the
    // stream surfaces the broken block as an error.
    let mut data = gz_block(HEADER_BLOCK);
    data.extend_from_slice(&[7, 7, 7, 7]);
    let parser = TafParser::from_bytes(data).unwrap();
    let mut it = TafAlignmentIterator::new(parser);
    assert!(matches!(
        it.next(),
        Some(Err(taf_tools::taf::DecodeError::BadBlock))
    ));
}

#[test]
fn empty_allele_is_rejected() {
    let (data, tai) = test_file();
    let records = vec![record("chr1", 102, "", "G")];
    assert!(annotate_ancestral_allele(data, &tai, &records, &"1".to_string()).is_err());
}

#[test]
fn seek_to_skips_lines_within_block() {
    let (data, _) = test_file();
    let (_, offsets) = gz_file(&[HEADER_BLOCK, CHR1_BLOCK, CHR2_BLOCK]);
    let mut parser = TafParser::from_bytes(data).unwrap();
    // Skip the first two lines of the chr1 block: the next column is
    // the third line, whose alleles are CC.
    assert!(parser.seek_to(offsets[1], 2));
    let col = parser.next().unwrap().unwrap();
    assert_eq!(col.raw_bases, "CC");
    // Seeking past the data fails and leaves the stream usable.
    assert!(!parser.seek_to(usize::MAX, 0));
}
