//! Tests for the column decoder, the coordinate fold, the block index,
//! the variant reader and the block-format reader.
use taf_tools::fold::fold_column_ops;
use taf_tools::fold::TafAlignmentColumn;
use taf_tools::indels::AlignmentBlock as IndelBlock;
use taf_tools::maf::block_has_dupe_ref;
use taf_tools::maf::count_ref_gaps;
use taf_tools::maf::maf_parser;
use taf_tools::maf::seqline_matches_interval;
use taf_tools::maf::ContainsResult;
use taf_tools::maf::MafLine;
use taf_tools::maf::parse_maf_line;
use taf_tools::sync::parse_ancestor_list;
use taf_tools::sync::ancestor_labels;
use taf_tools::taf::decode_bases;
use taf_tools::taf::encode_bases;
use taf_tools::taf::parse_coordinate_ops;
use taf_tools::taf::parse_taf_column;
use taf_tools::taf::parse_taf_header;
use taf_tools::taf::parse_u64_str;
use taf_tools::taf::tag_value;
use taf_tools::taf::Coordinate;
use taf_tools::taf::CoordinateOp;
use taf_tools::taf::DecodeError;
use taf_tools::taf::Strand;
use taf_tools::tai::TaiIndex;
use taf_tools::text::u64_to_string;
use taf_tools::vcf::VcfError;
use taf_tools::vcf::VcfParser;
use flate2::write::GzEncoder;
use flate2::Compression;
use std::io::Write;

fn strings(v: &[&str]) -> Vec<String> {
    v.iter().map(|s| s.to_string()).collect()
}

#[test]
fn decode_literal_bases() {
    let r = decode_bases("ACG-", false).unwrap();
    assert_eq!(r, vec!['A', 'C', 'G', '-']);
}

#[test]
fn decode_run_length_bases() {
    let r = decode_bases("A3C2-1", true).unwrap();
    assert_eq!(r, vec!['A', 'A', 'A', 'C', 'C', '-']);
}

#[test]
fn decode_missing_count_is_error() {
    assert_eq!(decode_bases("AC", true), Err(DecodeError::MissingCount));
    assert_eq!(decode_bases("A", true), Err(DecodeError::MissingCount));
}

#[test]
fn run_length_round_trip() {
    // Encoding pairs and decoding the text reproduces the expansion,
    // and the expansion decodes literally to the same vector.
    let pairs = vec![('A', 3u64), ('-', 2u64), ('T', 1u64), ('*', 11u64)];
    let text = encode_bases(&pairs);
    assert_eq!(text, "A3-2T1*11");
    let expanded = decode_bases(&text, true).unwrap();
    let mut expect = Vec::new();
    for (c, n) in &pairs {
        for _ in 0..*n {
            expect.push(*c);
        }
    }
    assert_eq!(expanded, expect);
    let literal: String = expect.iter().collect();
    assert_eq!(decode_bases(&literal, false).unwrap(), expect);
}

#[test]
fn parse_header_reads_tags() {
    let h = parse_taf_header("#taf version:1 run_length_encode_bases:1");
    assert_eq!(
        tag_value(&h.tags, "run_length_encode_bases"),
        Some("1".to_string())
    );
    assert_eq!(tag_value(&h.tags, "version"), Some("1".to_string()));
    assert_eq!(tag_value(&h.tags, "absent"), None);
}

#[test]
fn parse_column_with_ops_and_tags() {
    let col = parse_taf_column("ACG- ; i 0 sp.chr1 100 + 5000 g 2 7 @k:v x:y", false).unwrap();
    assert_eq!(col.raw_bases, "ACG-");
    assert_eq!(col.alleles, vec!['A', 'C', 'G', '-']);
    assert_eq!(col.coordinates.len(), 2);
    match &col.coordinates[0] {
        CoordinateOp::Insertion { row, coord: Some(c) } => {
            assert_eq!(*row, 0);
            assert_eq!(c.species, "sp");
            assert_eq!(c.chrom, "chr1");
            assert_eq!(c.offset, 100);
            assert_eq!(c.strand, Strand::Plus);
            assert_eq!(c.sequence_length, Some(5000));
        }
        other => panic!("unexpected op: {:?}", other),
    }
    match &col.coordinates[1] {
        CoordinateOp::Gap { row, gap_length } => {
            assert_eq!(*row, 2);
            assert_eq!(*gap_length, 7);
        }
        other => panic!("unexpected op: {:?}", other),
    }
    assert_eq!(col.tags.len(), 2);
    assert_eq!(col.tags[0], ("k".to_string(), "v".to_string()));
    assert_eq!(col.tags[1], ("x".to_string(), "y".to_string()));
}

#[test]
fn parse_column_run_length_mode() {
    let col = parse_taf_column("A2 C3 ; d 1", true).unwrap();
    assert_eq!(col.raw_bases, "A2C3");
    assert_eq!(col.alleles, vec!['A', 'A', 'C', 'C', 'C']);
    assert!(matches!(
        col.coordinates[0],
        CoordinateOp::Deletion { row: 1 }
    ));
}

#[test]
fn parse_column_errors() {
    assert_eq!(parse_taf_column("", false).unwrap_err(), DecodeError::EmptyLine);
    assert_eq!(
        parse_taf_column("ACG ; x 1", false).unwrap_err(),
        DecodeError::UnknownOp
    );
    assert_eq!(
        parse_taf_column("ACG ; i 0", false).unwrap_err(),
        DecodeError::TruncatedOp
    );
    assert_eq!(
        parse_taf_column("ACG ; i 0 sp.c 5 ?", false).unwrap_err(),
        DecodeError::BadStrand
    );
    assert_eq!(
        parse_taf_column("ACG ; g 0 many", false).unwrap_err(),
        DecodeError::BadNumber
    );
    assert_eq!(
        parse_taf_column("AC ; d 0", true).unwrap_err(),
        DecodeError::MissingCount
    );
}

#[test]
fn parse_ops_substitution_without_length() {
    let toks = strings(&["s", "3", "onlyspecies", "42", "-", "d", "1"]);
    let ops = parse_coordinate_ops(&toks).unwrap();
    assert_eq!(ops.len(), 2);
    match &ops[0] {
        CoordinateOp::Substitution { row, coord: Some(c) } => {
            assert_eq!(*row, 3);
            assert_eq!(c.species, "onlyspecies");
            assert_eq!(c.chrom, "");
            assert_eq!(c.offset, 42);
            assert_eq!(c.strand, Strand::Minus);
            assert_eq!(c.sequence_length, None);
        }
        other => panic!("unexpected op: {:?}", other),
    }
}

fn table(cells: &[Option<(&str, &str, u64)>]) -> (Vec<Option<String>>, Vec<Option<Coordinate>>) {
    let mut sp = Vec::new();
    let mut co = Vec::new();
    for cell in cells {
        match cell {
            Some((s, c, o)) => {
                sp.push(Some(s.to_string()));
                co.push(Some(Coordinate {
                    species: s.to_string(),
                    chrom: c.to_string(),
                    offset: *o,
                    strand: Strand::Plus,
                    sequence_length: None,
                }));
            }
            None => {
                sp.push(None);
                co.push(None);
            }
        }
    }
    (sp, co)
}

#[test]
fn fold_implicit_advance() {
    // A row with a coordinate and no op advances by exactly one.
    let (sp, co) = table(&[Some(("r", "c1", 10)), Some(("a", "c1", 20)), None]);
    let ops = vec![CoordinateOp::Gap {
        row: 1,
        gap_length: 5,
    }];
    let (_, nco) = fold_column_ops(&sp, &co, &ops).unwrap();
    assert_eq!(nco[0].as_ref().unwrap().offset, 11); // implicit +1
    assert_eq!(nco[1].as_ref().unwrap().offset, 25); // gap only, never +1 too
    assert!(nco[2].is_none());
}

#[test]
fn fold_exclusive_update() {
    // An explicitly replaced row takes the new coordinate untouched.
    let (sp, co) = table(&[Some(("r", "c1", 10))]);
    let ops = vec![CoordinateOp::Substitution {
        row: 0,
        coord: Some(Coordinate {
            species: "r".to_string(),
            chrom: "c2".to_string(),
            offset: 500,
            strand: Strand::Plus,
            sequence_length: Some(9),
        }),
    }];
    let (nsp, nco) = fold_column_ops(&sp, &co, &ops).unwrap();
    let c = nco[0].as_ref().unwrap();
    assert_eq!(c.offset, 500); // not 501: no implicit advance on top
    assert_eq!(c.chrom, "c2");
    assert_eq!(nsp[0], Some("r".to_string()));
}

#[test]
fn fold_deletion_clears_row() {
    let (sp, co) = table(&[Some(("r", "c1", 10)), Some(("a", "c1", 20))]);
    let ops = vec![CoordinateOp::Deletion { row: 0 }];
    let (nsp, nco) = fold_column_ops(&sp, &co, &ops).unwrap();
    assert!(nco[0].is_none());
    assert_eq!(nsp[0], Some("r".to_string())); // species mapping kept
    assert_eq!(nco[1].as_ref().unwrap().offset, 21);
}

#[test]
fn fold_gap_on_empty_row_is_noop() {
    let (sp, co) = table(&[None]);
    let ops = vec![CoordinateOp::Gap {
        row: 0,
        gap_length: 3,
    }];
    let (_, nco) = fold_column_ops(&sp, &co, &ops).unwrap();
    assert!(nco[0].is_none());
}

#[test]
fn fold_gap_string_advances_by_character_count() {
    let (sp, co) = table(&[Some(("r", "c1", 10)), Some(("a", "c1", 0))]);
    let ops = vec![CoordinateOp::GapString {
        row: 0,
        gap_string: "ACGT".to_string(),
    }];
    let (_, nco) = fold_column_ops(&sp, &co, &ops).unwrap();
    assert_eq!(nco[0].as_ref().unwrap().offset, 14);
}

#[test]
fn fold_deterministic() {
    // The same inputs give the same tables, call after call.
    let (sp, co) = table(&[Some(("r", "c1", 10)), Some(("a", "c1", 20))]);
    let ops = vec![
        CoordinateOp::Gap {
            row: 1,
            gap_length: 2,
        },
        CoordinateOp::Deletion { row: 0 },
    ];
    let (s1, c1) = fold_column_ops(&sp, &co, &ops).unwrap();
    let (s2, c2) = fold_column_ops(&sp, &co, &ops).unwrap();
    assert_eq!(s1, s2);
    let o1: Vec<Option<u64>> = c1.iter().map(|c| c.as_ref().map(|x| x.offset)).collect();
    let o2: Vec<Option<u64>> = c2.iter().map(|c| c.as_ref().map(|x| x.offset)).collect();
    assert_eq!(o1, o2);
}

#[test]
fn column_queries() {
    let col = parse_taf_column("AG ; i 0 ref.chr1 100 + i 1 Anc1.c 5 +", false).unwrap();
    let (sp, co) = table(&[None, None]);
    let (nsp, nco) = fold_column_ops(&sp, &co, &col.coordinates).unwrap();
    let snap = TafAlignmentColumn {
        column: col,
        species_map: nsp,
        coords: nco,
        col_index: 0,
    };
    assert!(snap.ref_matches_pos(0, 101)); // offset 100 == 101 - 1
    assert!(!snap.ref_matches_pos(0, 100));
    assert!(!snap.ref_matches_pos(5, 101));
    assert_eq!(snap.allele_for_species("Anc1"), Some((1, 'G')));
    assert_eq!(snap.allele_for_species("nobody"), None);
    assert!(snap.has_chromosome("chr1"));
    assert!(!snap.has_chromosome("chr9"));
    let rc = snap.ref_coord("chr1").unwrap();
    assert_eq!(rc.offset, 100);
    assert_eq!(snap.contains_pos("chr1", 100), ContainsResult::True);
    assert_eq!(snap.contains_pos("chr1", 99), ContainsResult::Before);
    assert_eq!(snap.contains_pos("chr1", 101), ContainsResult::After);
    assert_eq!(snap.contains_pos("chr9", 100), ContainsResult::WrongChrom);
}

#[test]
fn tai_index_lookup() {
    let lines = strings(&[
        "sp.chr1\t0\t0",
        "*\t100\t700",
        "*\t250\t1400",
        "sp.chr2\t0\t2100",
        "",
        "short\tline",
    ]);
    let idx = TaiIndex::from_lines(&lines);
    assert_eq!(idx.get_seek_info("chr1", 0), Some((0, 0)));
    assert_eq!(idx.get_seek_info("chr1", 99), Some((0, 0)));
    assert_eq!(idx.get_seek_info("chr1", 100), Some((100, 700)));
    assert_eq!(idx.get_seek_info("chr1", 9999), Some((250, 1400)));
    assert_eq!(idx.get_seek_info("chr2", 50), Some((0, 2100)));
    assert_eq!(idx.get_seek_info("chr3", 50), None);
    // An undotted label names the chromosome itself.
    let idx2 = TaiIndex::from_lines(&strings(&["plain\t5\t9"]));
    assert_eq!(idx2.get_seek_info("plain", 5), Some((5, 9)));
    assert_eq!(idx2.get_seek_info("plain", 4), None);
}

#[test]
fn numbers_round_trip() {
    assert_eq!(u64_to_string(0), "0");
    assert_eq!(u64_to_string(907), "907");
    assert_eq!(u64_to_string(u64::MAX), "18446744073709551615");
    assert_eq!(parse_u64_str(&"907".to_string()), Some(907));
    assert_eq!(parse_u64_str(&"18446744073709551615".to_string()), Some(u64::MAX));
    assert_eq!(parse_u64_str(&"18446744073709551616".to_string()), None);
    assert_eq!(parse_u64_str(&"".to_string()), None);
    assert_eq!(parse_u64_str(&"12x".to_string()), None);
}

#[test]
fn ancestor_list_parsing() {
    assert_eq!(parse_ancestor_list("1,2,30"), Some(vec![1, 2, 30]));
    assert_eq!(parse_ancestor_list("1;2"), None);
    assert_eq!(parse_ancestor_list("1,,2"), None);
    let labels = ancestor_labels(&vec![1, 12]);
    assert_eq!(labels, vec!["Anc1".to_string(), "Anc12".to_string()]);
}

const VCF_TEXT: &str = "##fileformat=VCFv4.2\n\
##INFO=<ID=AF,Number=A,Type=Float,Description=\"freq\">\n\
##FORMAT=<ID=GT,Number=1,Type=String,Description=\"geno\">\n\
#CHROM\tPOS\tID\tREF\tALT\tQUAL\tFILTER\tINFO\tFORMAT\ts1\ts2\n\
chr1\t102\tv1\tC\tG\t.\tPASS\tAF=0.5;IMP\tGT:DS\t0|1:2\t1|1\n\
chr1\t103\tv2\tA\tT\t.\tPASS\t.\tGT\t0|0\t0|1\n";

#[test]
fn vcf_header_and_records() {
    let p = VcfParser::from_text(VCF_TEXT).unwrap();
    assert_eq!(p.version(), "VCFv4.2");
    assert_eq!(p.sample_names(), &vec!["s1".to_string(), "s2".to_string()]);
    let mut it = p.records();
    let r1 = it.next().unwrap().unwrap();
    assert_eq!(r1.chrom, "chr1");
    assert_eq!(r1.pos, 102);
    assert_eq!(r1.id, "v1");
    assert_eq!(r1.ref_, "C");
    assert_eq!(r1.alt, "G");
    assert_eq!(r1.qual, ".");
    assert_eq!(r1.filter, "PASS");
    assert_eq!(r1.info[0], ("AF".to_string(), "0.5".to_string()));
    assert_eq!(r1.info[1], ("IMP".to_string(), "".to_string()));
    assert_eq!(r1.format[0].0, "GT");
    assert_eq!(r1.format[1].0, "DS");
    // Sample values pair with the format keys in column order.
    assert_eq!(
        r1.samples[0],
        vec![
            ("GT".to_string(), "0|1".to_string()),
            ("DS".to_string(), "2".to_string())
        ]
    );
    assert_eq!(r1.samples[1], vec![("GT".to_string(), "1|1".to_string())]);
    let r2 = it.next().unwrap().unwrap();
    assert_eq!(r2.pos, 103);
    assert!(it.next().is_none());
}

#[test]
fn vcf_errors() {
    assert_eq!(
        VcfParser::from_text("##fileformat=VCFv4.2\nno column line\n").unwrap_err(),
        VcfError::MissingHeader
    );
    let p = VcfParser::from_text(
        "#CHROM\tPOS\tID\tREF\tALT\tQUAL\tFILTER\tINFO\tFORMAT\ns\tshort\n",
    )
    .unwrap();
    let mut it = p.records();
    assert_eq!(it.next().unwrap().unwrap_err(), VcfError::BadRecord);
}

#[test]
fn vcf_from_gzip() {
    let mut enc = GzEncoder::new(Vec::new(), Compression::default());
    enc.write_all(VCF_TEXT.as_bytes()).unwrap();
    let data = enc.finish().unwrap();
    let p = VcfParser::from_gzip(&data).unwrap();
    assert_eq!(p.version(), "VCFv4.2");
    let mut it = p.records();
    assert_eq!(it.next().unwrap().unwrap().pos, 102);
    // Bytes that are not a gzip stream are rejected.
    assert_eq!(
        VcfParser::from_gzip(&vec![1, 2, 3]).unwrap_err(),
        VcfError::BadGzip
    );
}

#[test]
fn maf_line_parsing() {
    match parse_maf_line("s ref.chr1 100 8 + 5000 ACGT-ACG").unwrap() {
        MafLine::SequenceLine(sp, id, st, ln, strand, sz, tx) => {
            assert_eq!(sp, "ref");
            assert_eq!(id, "chr1");
            assert_eq!(st, 100);
            assert_eq!(ln, 8);
            assert_eq!(strand, Strand::Plus);
            assert_eq!(sz, 5000);
            assert_eq!(tx, "ACGT-ACG");
        }
        other => panic!("unexpected line: {:?}", other),
    }
    assert!(matches!(
        parse_maf_line("# note").unwrap(),
        MafLine::Comment(_)
    ));
    assert!(matches!(
        parse_maf_line("a score=1").unwrap(),
        MafLine::AlignmentBlockLine(_)
    ));
    assert!(matches!(parse_maf_line("").unwrap(), MafLine::BlankLine));
    assert!(matches!(
        parse_maf_line("q quality").unwrap(),
        MafLine::BlankLine
    ));
    // An undotted name makes the line malformed.
    assert!(parse_maf_line("s nodot 1 2 + 3 ACGT").is_none());
    assert!(parse_maf_line("s a.b x 2 + 3 ACGT").is_none());
}

#[test]
fn maf_blocks_and_tallies() {
    let lines = strings(&[
        "# header",
        "a score=1",
        "s ref.chr1 0 4 + 100 AC-T",
        "s oth.chr1 0 4 + 100 ACGT",
        "",
        "a score=2",
        "s ref.chr2 5 4 - 100 --GT",
        "",
    ]);
    let mut p = maf_parser(lines.clone());
    let b1 = p.next().unwrap().unwrap();
    // The block holds the comment, the marker and the two sequence lines.
    assert_eq!(b1.len(), 4);
    assert!(b1[2].is_seqline());
    assert!(!b1[1].is_seqline());
    let b2 = p.next().unwrap().unwrap();
    assert_eq!(b2.len(), 2);
    assert!(p.next().is_none());
    // Reference gaps: one in block one, two in block two; the minus
    // strand of block two's line adds one more dash on that line.
    assert_eq!(count_ref_gaps(&lines), 4);
    // Duplicate reference detection.
    assert!(!block_has_dupe_ref(&b1));
    let dupe = vec![
        parse_maf_line("s ref.chr1 0 4 + 100 ACGT").unwrap(),
        parse_maf_line("s ref.chr2 0 4 + 100 ACGT").unwrap(),
    ];
    assert!(block_has_dupe_ref(&dupe));
}

#[test]
fn fold_offset_overflow_is_reported() {
    let (sp, co) = table(&[Some(("r", "c1", u64::MAX - 1))]);
    let ops = vec![CoordinateOp::Gap {
        row: 0,
        gap_length: 5,
    }];
    assert_eq!(
        fold_column_ops(&sp, &co, &ops).unwrap_err(),
        DecodeError::OffsetOverflow
    );
    // The implicit advance can overflow too.
    let (sp2, co2) = table(&[Some(("r", "c1", u64::MAX))]);
    assert_eq!(
        fold_column_ops(&sp2, &co2, &Vec::new()).unwrap_err(),
        DecodeError::OffsetOverflow
    );
}

#[test]
fn vcf_bad_header_line() {
    let r = VcfParser::from_text("##INFO
#CHROM	POS
");
    assert_eq!(r.unwrap_err(), VcfError::BadHeaderLine);
}

#[test]
fn maf_parser_reports_bad_line() {
    let mut p = maf_parser(strings(&["s nodot 1 2 + 3 ACGT", ""]));
    assert!(matches!(
        p.next(),
        Some(Err(taf_tools::maf::MafError::BadLine))
    ));
}

#[test]
fn maf_count_dupe_refs() {
    let lines = strings(&[
        "a score=1",
        "s ref.chr1 0 4 + 100 ACGT",
        "s ref.chr1 9 4 + 100 AC-T",
        "s oth.chr1 0 4 + 100 ACGT",
        "a score=2",
        "s ref.chr2 0 3 + 100 GGT",
        "s ref.chr2 4 3 + 100 TTA",
    ]);
    // One duplicate per block; lengths 4 + 3.
    assert_eq!(taf_tools::maf::count_dupe_refs(&lines), Some((2, 7)));
    // A sequence line without its name field spoils the tally.
    assert_eq!(taf_tools::maf::count_dupe_refs(&strings(&["s"])), None);
}

#[test]
fn maf_alignment_block_grouping() {
    let lines = strings(&[
        "# header",
        "a score=1",
        "s ref.chr1 10 4 + 100 AC-T",
        "s oth.chr1 0 4 + 100 ACGT",
        "a score=2",
        "s ref.chr2 5 4 + 100 GGGT",
        "a score=3",
    ]);
    let mut it = maf_parser(lines).alignment_blocks();
    let b1 = it.next().unwrap().unwrap();
    assert_eq!(b1.species, vec!["ref".to_string(), "oth".to_string()]);
    assert_eq!(b1.lines.len(), 2);
    assert_eq!(b1.seqid, "chr1");
    assert_eq!(b1.start, 10);
    assert_eq!(b1.len, 4);
    let b2 = it.next().unwrap().unwrap();
    assert_eq!(b2.seqid, "chr2");
    assert_eq!(b2.lines.len(), 1);
    assert!(it.next().is_none());
}

#[test]
fn maf_fasta_and_text_output() {
    let line = parse_maf_line("s ref.chr1 100 8 + 5000 ACGT-ACG").unwrap();
    assert_eq!(line.fasta_out(), ">chr1:100-108 + 5000\nACGT-ACG\n");
    assert_eq!(line.to_line(), "s ref chr1 100 8 + 5000 ACGT-ACG");
    let c = parse_maf_line("# note").unwrap();
    assert_eq!(c.to_line(), "# note");
}

#[test]
fn interval_match() {
    let line = parse_maf_line("s ref.chr1 100 8 + 5000 ACGT-ACG").unwrap();
    assert!(seqline_matches_interval(&line, &"ref".to_string(), 104));
    assert!(seqline_matches_interval(&line, &"ref".to_string(), 100));
    assert!(seqline_matches_interval(&line, &"ref".to_string(), 108));
    assert!(!seqline_matches_interval(&line, &"ref".to_string(), 109));
    assert!(!seqline_matches_interval(&line, &"oth".to_string(), 104));
}

#[test]
fn remove_reference_indels() {
    let mut block = IndelBlock {
        reference: "ref".to_string(),
        lines: vec![
            parse_maf_line("s ref.chr1 0 4 + 100 AC-T").unwrap(),
            parse_maf_line("s oth.chr1 0 4 + 100 AGGT").unwrap(),
        ],
        seqid: "chr1".to_string(),
        start: 0,
    };
    assert_eq!(block.len(), 2);
    assert!(!block.is_empty());
    block.remove_ref_indels();
    match &block.lines[0] {
        MafLine::SequenceLine(_, _, _, _, _, _, tx) => assert_eq!(tx, "ACT"),
        other => panic!("unexpected line: {:?}", other),
    }
    match &block.lines[1] {
        MafLine::SequenceLine(_, _, _, _, _, _, tx) => assert_eq!(tx, "AGT"),
        other => panic!("unexpected line: {:?}", other),
    }
}
