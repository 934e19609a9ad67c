//! The alignment-column wire format: one text line per column, holding a
//! run-length-encoded or literal allele string, an optional run of
//! per-row coordinate operations, and optional key:value tags.  This
//! module decodes one line into a structured column; the running
//! coordinate table lives in `fold`.
use vstd::prelude::*;
use vstd::string::StringExecFns;

use crate::text::all_digits;
use crate::text::char_repeat;
use crate::text::digit_run;
use crate::text::digits_val;
use crate::text::chars_of;
use crate::text::chars_range;
use crate::text::is_digit;
use crate::text::lemma_digit_run;
use crate::text::lemma_digit_run_is;
use crate::text::lemma_digits_val_nonneg;
use crate::text::lemma_u64_digits_are_digits;
use crate::text::lemma_u64_digits_value;
use crate::text::parse_usize_chars;
use crate::text::spec_is_digit;
use crate::text::spec_parse_usize;
use crate::text::spec_split_once;
use crate::text::spec_u64_digits;
use crate::text::split_once_chars;
use crate::text::string_from_chars;
use crate::text::is_single_char;
use crate::text::u64_to_string;

verus! {

// ---------------------------------------------------------------------------
// Data model
// ---------------------------------------------------------------------------
/// Orientation of one aligned row on its source sequence.
#[derive(Debug, Clone, Copy, PartialEq, Eq, Structural)]
pub enum Strand {
    Plus,
    Minus,
}

/// Why one column line failed to decode.
#[derive(Debug, Clone, Copy, PartialEq, Eq, Structural)]
pub enum DecodeError {
    /// The column line held no tokens at all.
    EmptyLine,
    /// A run-length base was not followed by a count.
    MissingCount,
    /// A numeric field failed to parse or exceeded its type.
    BadNumber,
    /// A coordinate operation had too few trailing tokens.
    TruncatedOp,
    /// A strand field was neither `+` nor `-`.
    BadStrand,
    /// An unrecognized coordinate opcode.
    UnknownOp,
    /// Folding coordinate updates pushed an offset past `u64::MAX`.
    OffsetOverflow,
    /// A compressed block could not be decoded.
    BadBlock,
}

/// The genomic position of one row at the current column.
#[derive(Debug, Clone)]
pub struct Coordinate {
    pub species: String,
    pub chrom: String,
    pub offset: u64,
    pub strand: Strand,
    pub sequence_length: Option<u64>,
}

/// One per-row coordinate update carried by a column.
#[derive(Debug, Clone)]
pub enum CoordinateOp {
    Insertion { row: usize, coord: Option<Coordinate> },
    Deletion { row: usize },
    Substitution { row: usize, coord: Option<Coordinate> },
    Gap { row: usize, gap_length: usize },
    GapString { row: usize, gap_string: String },
}

/// One decoded alignment column.
#[derive(Debug, Clone)]
pub struct TafColumn {
    pub raw_bases: String,
    pub alleles: Vec<char>,
    pub coordinates: Vec<CoordinateOp>,
    pub tags: Vec<(String, String)>,
}

/// The tags of the format header line.
#[derive(Debug)]
pub struct TafHeader {
    pub tags: Vec<(String, String)>,
}

// ---------------------------------------------------------------------------
// Mathematical models
// ---------------------------------------------------------------------------
/// Model of a `Coordinate`, with an unbounded offset.
#[verifier::ext_equal]
pub struct CoordModel {
    pub species: Seq<char>,
    pub chrom: Seq<char>,
    pub offset: int,
    pub strand: Strand,
    pub sequence_length: Option<u64>,
}

/// Model of a `CoordinateOp`.
#[verifier::ext_equal]
pub enum OpModel {
    Insertion { row: usize, coord: Option<CoordModel> },
    Deletion { row: usize },
    Substitution { row: usize, coord: Option<CoordModel> },
    Gap { row: usize, gap_length: usize },
    GapString { row: usize, gap_string: Seq<char> },
}

/// Model of a `TafColumn`.
#[verifier::ext_equal]
pub struct ColumnModel {
    pub raw_bases: Seq<char>,
    pub alleles: Seq<char>,
    pub coordinates: Seq<OpModel>,
    pub tags: Seq<(Seq<char>, Seq<char>)>,
}

impl View for Coordinate {
    type V = CoordModel;

    open spec fn view(&self) -> CoordModel {
        CoordModel {
            species: self.species@,
            chrom: self.chrom@,
            offset: self.offset as int,
            strand: self.strand,
            sequence_length: self.sequence_length,
        }
    }
}

impl View for CoordinateOp {
    type V = OpModel;

    open spec fn view(&self) -> OpModel {
        match self {
            CoordinateOp::Insertion { row, coord } => OpModel::Insertion {
                row: *row,
                coord: match coord {
                    Some(c) => Some(c@),
                    None => None,
                },
            },
            CoordinateOp::Deletion { row } => OpModel::Deletion { row: *row },
            CoordinateOp::Substitution { row, coord } => OpModel::Substitution {
                row: *row,
                coord: match coord {
                    Some(c) => Some(c@),
                    None => None,
                },
            },
            CoordinateOp::Gap { row, gap_length } => OpModel::Gap {
                row: *row,
                gap_length: *gap_length,
            },
            CoordinateOp::GapString { row, gap_string } => OpModel::GapString {
                row: *row,
                gap_string: gap_string@,
            },
        }
    }
}

/// The models of a list of coordinate operations.
pub open spec fn ops_view(v: Seq<CoordinateOp>) -> Seq<OpModel> {
    v.map_values(|o: CoordinateOp| o@)
}

/// The views of a list of key:value pairs.
pub open spec fn pairs_view(v: Seq<(String, String)>) -> Seq<(Seq<char>, Seq<char>)> {
    v.map_values(|p: (String, String)| (p.0@, p.1@))
}

impl View for TafColumn {
    type V = ColumnModel;

    open spec fn view(&self) -> ColumnModel {
        ColumnModel {
            raw_bases: self.raw_bases@,
            alleles: self.alleles@,
            coordinates: ops_view(self.coordinates@),
            tags: pairs_view(self.tags@),
        }
    }
}

// ---------------------------------------------------------------------------
// Tag lookup
// ---------------------------------------------------------------------------
/// The value of the last pair carrying `key`, if any; a later pair for
/// the same key shadows an earlier one.
pub open spec fn spec_tag_value(tags: Seq<(Seq<char>, Seq<char>)>, key: Seq<char>) -> Option<
    Seq<char>,
>
    decreases tags.len(),
{
    if tags.len() == 0 {
        None
    } else if tags[tags.len() - 1].0 == key {
        Some(tags[tags.len() - 1].1)
    } else {
        spec_tag_value(tags.take(tags.len() - 1), key)
    }
}

/// Looks up the last value stored under `key`.
pub fn tag_value(tags: &Vec<(String, String)>, key: &str) -> (r: Option<String>)
    ensures
        match r {
            Some(v) => spec_tag_value(pairs_view(tags@), key@) == Some(v@),
            None => spec_tag_value(pairs_view(tags@), key@) is None,
        },
{
    let mut i: usize = tags.len();
    proof {
        assert(pairs_view(tags@).take(tags@.len() as int) =~= pairs_view(tags@));
    }
    while i > 0
        invariant
            i <= tags.len(),
            spec_tag_value(pairs_view(tags@), key@) == spec_tag_value(
                pairs_view(tags@).take(i as int),
                key@,
            ),
        decreases i,
    {
        i -= 1;
        let entry = &tags[i];
        proof {
            assert(pairs_view(tags@).take(i + 1 as int).take(i as int) =~= pairs_view(
                tags@,
            ).take(i as int));
            assert(pairs_view(tags@).take(i + 1 as int)[i as int] == (tags@[i as int].0@,
            tags@[i as int].1@));
        }
        if crate::text::str_equal(&entry.0, key) {
            let v = entry.1.clone();
            return Some(v);
        }
    }
    proof {
        assert(pairs_view(tags@).take(0) =~= Seq::<(Seq<char>, Seq<char>)>::empty());
    }
    None
}

// ---------------------------------------------------------------------------
// Run-length decoding of the allele field
// ---------------------------------------------------------------------------
/// What a run-length allele string decodes to: each character is
/// followed by a decimal repeat count and expands to that many copies.
pub open spec fn spec_rle_decode(s: Seq<char>) -> Result<Seq<char>, DecodeError>
    decreases s.len(),
    via spec_rle_decode_dec
{
    if s.len() == 0 {
        Ok(seq![])
    } else {
        let d = digit_run(s.skip(1));
        if d == 0 {
            Err(DecodeError::MissingCount)
        } else if digits_val(s.skip(1).take(d)) > usize::MAX {
            Err(DecodeError::BadNumber)
        } else {
            match spec_rle_decode(s.skip(1 + d)) {
                Ok(rest) => Ok(char_repeat(s[0], digits_val(s.skip(1).take(d))) + rest),
                Err(e) => Err(e),
            }
        }
    }
}

#[via_fn]
proof fn spec_rle_decode_dec(s: Seq<char>) {
    if s.len() > 0 {
        lemma_digit_run(s.skip(1));
    }
}

/// What the allele field decodes to: itself in literal mode, its
/// run-length expansion otherwise.
pub open spec fn spec_decode_bases(s: Seq<char>, run_length: bool) -> Result<
    Seq<char>,
    DecodeError,
> {
    if run_length {
        spec_rle_decode(s)
    } else {
        Ok(s)
    }
}

/// Decodes the allele field of a column line.
pub fn decode_bases(s: &str, run_length: bool) -> (r: Result<Vec<char>, DecodeError>)
    ensures
        match r {
            Ok(v) => spec_decode_bases(s@, run_length) == Ok::<Seq<char>, DecodeError>(v@),
            Err(e) => spec_decode_bases(s@, run_length) == Err::<Seq<char>, DecodeError>(e),
        },
{
    let cs = chars_of(s);
    if !run_length {
        return Ok(cs);
    }
    let mut out: Vec<char> = Vec::new();
    let mut i: usize = 0;
    proof {
        assert(cs@.skip(0) =~= cs@);
    }
    while i < cs.len()
        invariant
            run_length,
            i <= cs.len(),
            cs@ == s@,
            spec_rle_decode(cs@) == match spec_rle_decode(cs@.skip(i as int)) {
                Ok(rest) => Ok::<Seq<char>, DecodeError>(out@ + rest),
                Err(e) => Err::<Seq<char>, DecodeError>(e),
            },
        decreases cs.len() - i,
    {
        let c = cs[i];
        let mut j: usize = i + 1;
        while j < cs.len() && is_digit(cs[j])
            invariant
                i + 1 <= j <= cs.len(),
                forall|k: int| i + 1 <= k < j ==> spec_is_digit(#[trigger] cs@[k]),
            decreases cs.len() - j,
        {
            j += 1;
        }
        let ghost tail = cs@.skip(i + 1 as int);
        proof {
            assert forall|k: int| 0 <= k < j - i - 1 implies spec_is_digit(#[trigger] tail[k]) by {
                assert(tail[k] == cs@[i + 1 + k]);
            }
            if j < cs.len() {
                assert(tail[j - i - 1] == cs@[j as int]);
            }
            lemma_digit_run_is(tail, j - i - 1);
            assert(cs@.skip(i as int).skip(1) =~= tail);
            assert(cs@.skip(i as int)[0] == cs@[i as int]);
        }
        if j == i + 1 {
            proof {
                assert(spec_rle_decode(cs@.skip(i as int)) == Err::<Seq<char>, DecodeError>(
                    DecodeError::MissingCount,
                ));
            }
            return Err(DecodeError::MissingCount);
        }
        let digits = chars_range(&cs, i + 1, j);
        proof {
            assert(digits@ =~= tail.take(j - i - 1));
            assert(all_digits(digits@));
            lemma_digits_val_nonneg(digits@);
        }
        let count = match parse_usize_chars(&digits) {
            Some(n) => n,
            None => {
                proof {
                    assert(digits@.len() > 0);
                    assert(digits_val(digits@) > usize::MAX);
                    assert(spec_rle_decode(cs@.skip(i as int)) == Err::<Seq<char>, DecodeError>(
                        DecodeError::BadNumber,
                    ));
                }
                return Err(DecodeError::BadNumber);
            },
        };
        proof {
            assert(digits_val(digits@) == count as int);
        }
        let mut k: usize = 0;
        let ghost out_before = out@;
        while k < count
            invariant
                k <= count,
                out@ == out_before + char_repeat(c, k as int),
            decreases count - k,
        {
            out.push(c);
            proof {
                assert(out_before + char_repeat(c, k + 1 as int) =~= (out_before + char_repeat(
                    c,
                    k as int,
                )).push(c));
            }
            k += 1;
        }
        proof {
            assert(cs@.skip(i as int).skip(1 + (j - i - 1)) =~= cs@.skip(j as int));
            assert(out_before + (char_repeat(c, count as int) + match spec_rle_decode(
                cs@.skip(j as int),
            ) {
                Ok(rest) => rest,
                Err(_) => Seq::<char>::empty(),
            }) =~= out@ + match spec_rle_decode(cs@.skip(j as int)) {
                Ok(rest) => rest,
                Err(_) => Seq::<char>::empty(),
            });
        }
        i = j;
    }
    proof {
        assert(cs@.skip(cs@.len() as int) =~= Seq::<char>::empty());
        assert(out@ + Seq::<char>::empty() =~= out@);
    }
    Ok(out)
}

// ---------------------------------------------------------------------------
// Run-length encoding, and the round trip
// ---------------------------------------------------------------------------
/// The run-length text for a list of `(character, count)` pairs.
pub open spec fn spec_rle_string(pairs: Seq<(char, u64)>) -> Seq<char>
    decreases pairs.len(),
{
    if pairs.len() == 0 {
        seq![]
    } else {
        seq![pairs[0].0] + spec_u64_digits(pairs[0].1 as int) + spec_rle_string(pairs.skip(1))
    }
}

/// The expansion of a list of `(character, count)` pairs: each character
/// repeated its count of times, in order.
pub open spec fn spec_rle_expand(pairs: Seq<(char, u64)>) -> Seq<char>
    decreases pairs.len(),
{
    if pairs.len() == 0 {
        seq![]
    } else {
        char_repeat(pairs[0].0, pairs[0].1 as int) + spec_rle_expand(pairs.skip(1))
    }
}

/// The run-length text for a list of pairs, as a string.
pub fn encode_bases(pairs: &Vec<(char, u64)>) -> (r: String)
    ensures
        r@ == spec_rle_string(pairs@),
{
    let mut out = String::new();
    let mut i: usize = 0;
    proof {
        assert(pairs@.skip(0) =~= pairs@);
    }
    while i < pairs.len()
        invariant
            i <= pairs.len(),
            out@ + spec_rle_string(pairs@.skip(i as int)) =~= spec_rle_string(pairs@),
        decreases pairs.len() - i,
    {
        let (c, n) = pairs[i];
        let mut piece = String::new();
        crate::text::push_char(&mut piece, c);
        let digits = u64_to_string(n);
        piece.append(digits.as_str());
        out.append(piece.as_str());
        proof {
            assert(pairs@.skip(i as int)[0] == pairs@[i as int]);
            assert(pairs@.skip(i as int).skip(1) =~= pairs@.skip(i + 1 as int));
            assert(Seq::<char>::empty().push(c) =~= seq![c]);
            assert(out@ + spec_rle_string(pairs@.skip(i + 1 as int)) =~= spec_rle_string(pairs@));
        }
        i += 1;
    }
    proof {
        assert(pairs@.skip(pairs@.len() as int) =~= Seq::<(char, u64)>::empty());
        assert(out@ =~= out@ + spec_rle_string(Seq::<(char, u64)>::empty()));
    }
    out
}

/// The first character of a run-length text is its first pair's
/// character.
proof fn lemma_rle_string_first(pairs: Seq<(char, u64)>)
    requires
        pairs.len() > 0,
    ensures
        spec_rle_string(pairs).len() > 0,
        spec_rle_string(pairs)[0] == pairs[0].0,
{
}

/// Law: for any pair list with counts at least one, characters that are
/// not digits, and counts a machine word can hold, decoding the pairs'
/// run-length text yields exactly their expansion; and a literal allele
/// line equal to that expansion decodes to the same allele vector.
pub proof fn lemma_run_length_round_trip(pairs: Seq<(char, u64)>)
    requires
        forall|i: int| 0 <= i < pairs.len() ==> (#[trigger] pairs[i]).1 >= 1,
        forall|i: int| 0 <= i < pairs.len() ==> !spec_is_digit((#[trigger] pairs[i]).0),
        forall|i: int| 0 <= i < pairs.len() ==> (#[trigger] pairs[i]).1 <= usize::MAX,
    ensures
        spec_rle_decode(spec_rle_string(pairs)) == Ok::<Seq<char>, DecodeError>(
            spec_rle_expand(pairs),
        ),
        spec_decode_bases(spec_rle_expand(pairs), false) == Ok::<Seq<char>, DecodeError>(
            spec_rle_expand(pairs),
        ),
    decreases pairs.len(),
{
    if pairs.len() == 0 {
    } else {
        let c = pairs[0].0;
        let n = pairs[0].1;
        let dg = spec_u64_digits(n as int);
        let rest = spec_rle_string(pairs.skip(1));
        let s = spec_rle_string(pairs);
        lemma_u64_digits_are_digits(n as int);
        lemma_u64_digits_value(n as int);
        assert(s =~= seq![c] + dg + rest);
        assert(s.skip(1) =~= dg + rest);
        // the digit run after the leading character is exactly dg
        assert forall|k: int| 0 <= k < dg.len() implies spec_is_digit(#[trigger] s.skip(1)[k]) by {
            assert(s.skip(1)[k] == dg[k]);
        }
        if rest.len() > 0 {
            lemma_rle_string_first(pairs.skip(1));
            assert(pairs.skip(1)[0] == pairs[1]);
            assert(s.skip(1)[dg.len() as int] == rest[0]);
        }
        lemma_digit_run_is(s.skip(1), dg.len() as int);
        assert(s.skip(1).take(dg.len() as int) =~= dg);
        assert(digits_val(s.skip(1).take(dg.len() as int)) == n as int);
        assert(s.skip(1 + dg.len() as int) =~= rest);
        assert forall|i: int| 0 <= i < pairs.skip(1).len() implies (#[trigger] pairs.skip(
            1,
        )[i]).1 >= 1 && !spec_is_digit(pairs.skip(1)[i].0) && pairs.skip(1)[i].1
            <= usize::MAX by {
            assert(pairs.skip(1)[i] == pairs[i + 1]);
        }
        lemma_run_length_round_trip(pairs.skip(1));
        assert(spec_rle_decode(s) == Ok::<Seq<char>, DecodeError>(
            char_repeat(c, n as int) + spec_rle_expand(pairs.skip(1)),
        ));
        assert(char_repeat(c, n as int) + spec_rle_expand(pairs.skip(1)) =~= spec_rle_expand(
            pairs,
        ));
    }
}

// ---------------------------------------------------------------------------
// Coordinate operations
// ---------------------------------------------------------------------------
/// True when the token is one of the five opcode tokens.
pub open spec fn is_opcode_token(t: Seq<char>) -> bool {
    t == seq!['i'] || t == seq!['d'] || t == seq!['s'] || t == seq!['g'] || t == seq!['G']
}

/// The species and chromosome parts of a `species.chromosome` name; a
/// name with no dot is all species and the chromosome is empty.
pub open spec fn spec_split_name(full: Seq<char>) -> (Seq<char>, Seq<char>) {
    match spec_split_once(full, '.') {
        Some(p) => p,
        None => (full, Seq::<char>::empty()),
    }
}

/// What a run of coordinate-operation tokens parses to.  Tokens are read
/// positionally: an opcode, its row, and its fixed fields; an insertion
/// or substitution may carry one optional trailing sequence length, taken
/// only when the next token is not an opcode and reads as a number.
pub open spec fn spec_parse_ops(toks: Seq<Seq<char>>) -> Result<Seq<OpModel>, DecodeError>
    decreases toks.len(),
{
    if toks.len() == 0 {
        Ok(seq![])
    } else if toks[0] == seq!['i'] || toks[0] == seq!['s'] {
        if toks.len() < 5 {
            Err(DecodeError::TruncatedOp)
        } else {
            match spec_parse_usize(toks[1]) {
                None => Err(DecodeError::BadNumber),
                Some(row) => match crate::text::spec_parse_u64(toks[3]) {
                    None => Err(DecodeError::BadNumber),
                    Some(offset) => {
                        if toks[4] == seq!['+'] || toks[4] == seq!['-'] {
                            let more = toks.len() > 5 && !is_opcode_token(toks[5])
                                && crate::text::spec_parse_u64(toks[5]) is Some;
                            let coord = CoordModel {
                                species: spec_split_name(toks[2]).0,
                                chrom: spec_split_name(toks[2]).1,
                                offset: offset as int,
                                strand: if toks[4] == seq!['+'] {
                                    Strand::Plus
                                } else {
                                    Strand::Minus
                                },
                                sequence_length: if more {
                                    crate::text::spec_parse_u64(toks[5])
                                } else {
                                    None
                                },
                            };
                            let op = if toks[0] == seq!['i'] {
                                OpModel::Insertion { row, coord: Some(coord) }
                            } else {
                                OpModel::Substitution { row, coord: Some(coord) }
                            };
                            match spec_parse_ops(toks.skip(if more { 6 } else { 5 })) {
                                Ok(rest) => Ok(seq![op] + rest),
                                Err(e) => Err(e),
                            }
                        } else {
                            Err(DecodeError::BadStrand)
                        }
                    },
                },
            }
        }
    } else if toks[0] == seq!['d'] {
        if toks.len() < 2 {
            Err(DecodeError::TruncatedOp)
        } else {
            match spec_parse_usize(toks[1]) {
                None => Err(DecodeError::BadNumber),
                Some(row) => match spec_parse_ops(toks.skip(2)) {
                    Ok(rest) => Ok(seq![OpModel::Deletion { row }] + rest),
                    Err(e) => Err(e),
                },
            }
        }
    } else if toks[0] == seq!['g'] {
        if toks.len() < 3 {
            Err(DecodeError::TruncatedOp)
        } else {
            match spec_parse_usize(toks[1]) {
                None => Err(DecodeError::BadNumber),
                Some(row) => match spec_parse_usize(toks[2]) {
                    None => Err(DecodeError::BadNumber),
                    Some(gap_length) => match spec_parse_ops(toks.skip(3)) {
                        Ok(rest) => Ok(seq![OpModel::Gap { row, gap_length }] + rest),
                        Err(e) => Err(e),
                    },
                },
            }
        }
    } else if toks[0] == seq!['G'] {
        if toks.len() < 3 {
            Err(DecodeError::TruncatedOp)
        } else {
            match spec_parse_usize(toks[1]) {
                None => Err(DecodeError::BadNumber),
                Some(row) => match spec_parse_ops(toks.skip(3)) {
                    Ok(rest) => Ok(
                        seq![OpModel::GapString { row, gap_string: toks[2] }] + rest,
                    ),
                    Err(e) => Err(e),
                },
            }
        }
    } else {
        Err(DecodeError::UnknownOp)
    }
}

/// Reads a token as a `usize`.
pub fn parse_usize_str(s: &String) -> (r: Option<usize>)
    ensures
        r == spec_parse_usize(s@),
{
    let cs = chars_of(s.as_str());
    parse_usize_chars(&cs)
}

/// Reads a token as a `u64`.
pub fn parse_u64_str(s: &String) -> (r: Option<u64>)
    ensures
        r == crate::text::spec_parse_u64(s@),
{
    let cs = chars_of(s.as_str());
    crate::text::parse_u64_chars(&cs)
}

/// Decodes a run of coordinate-operation tokens.
pub fn parse_coordinate_ops(tokens: &Vec<String>) -> (r: Result<Vec<CoordinateOp>, DecodeError>)
    ensures
        match r {
            Ok(v) => spec_parse_ops(tokens.deep_view()) == Ok::<Seq<OpModel>, DecodeError>(
                ops_view(v@),
            ),
            Err(e) => spec_parse_ops(tokens.deep_view()) == Err::<Seq<OpModel>, DecodeError>(e),
        },
{
    let ghost tv = tokens.deep_view();
    let mut ops: Vec<CoordinateOp> = Vec::new();
    let mut i: usize = 0;
    proof {
        assert(tv.skip(0) =~= tv);
        assert(ops_view(ops@) + Seq::<OpModel>::empty() =~= ops_view(ops@));
        assert(tv.len() == tokens@.len());
    }
    while i < tokens.len()
        invariant
            i <= tokens.len(),
            tv == tokens.deep_view(),
            tv.len() == tokens@.len(),
            spec_parse_ops(tv) == match spec_parse_ops(tv.skip(i as int)) {
                Ok(rest) => Ok::<Seq<OpModel>, DecodeError>(ops_view(ops@) + rest),
                Err(e) => Err::<Seq<OpModel>, DecodeError>(e),
            },
        decreases tokens.len() - i,
    {
        let ghost su = tv.skip(i as int);
        proof {
            assert(su[0] == tv[i as int]);
            assert(tv[i as int] == tokens@[i as int]@);
        }
        let op_tok = chars_of(tokens[i].as_str());
        let is_ins = is_single_char(&op_tok, 'i');
        let is_sub = is_single_char(&op_tok, 's');
        let op: CoordinateOp;
        let used: usize;
        if is_ins || is_sub {
            if tokens.len() - i < 5 {
                return Err(DecodeError::TruncatedOp);
            }
            proof {
                assert(su[1] == tokens@[i + 1 as int]@);
                assert(su[2] == tokens@[i + 2 as int]@);
                assert(su[3] == tokens@[i + 3 as int]@);
                assert(su[4] == tokens@[i + 4 as int]@);
            }
            let row = match parse_usize_str(&tokens[i + 1]) {
                Some(n) => n,
                None => {
                    return Err(DecodeError::BadNumber);
                },
            };
            let name_chars = chars_of(tokens[i + 2].as_str());
            let (species, chrom) = match split_once_chars(&name_chars, '.') {
                Some(p) => (string_from_chars(&p.0), string_from_chars(&p.1)),
                None => (tokens[i + 2].clone(), String::new()),
            };
            proof {
                assert(species@ == spec_split_name(su[2]).0);
                assert(chrom@ == spec_split_name(su[2]).1);
            }
            let offset = match parse_u64_str(&tokens[i + 3]) {
                Some(n) => n,
                None => {
                    return Err(DecodeError::BadNumber);
                },
            };
            let strand_tok = chars_of(tokens[i + 4].as_str());
            let plus = is_single_char(&strand_tok, '+');
            let minus = is_single_char(&strand_tok, '-');
            if !plus && !minus {
                return Err(DecodeError::BadStrand);
            }
            let strand = if plus {
                Strand::Plus
            } else {
                Strand::Minus
            };
            let mut len_used: usize = 5;
            let mut sequence_length: Option<u64> = None;
            if i + 5 < tokens.len() {
                proof {
                    assert(su[5] == tokens@[i + 5 as int]@);
                }
                let t5 = chars_of(tokens[i + 5].as_str());
                let opcode = is_single_char(&t5, 'i') || is_single_char(&t5, 'd')
                    || is_single_char(&t5, 's') || is_single_char(&t5, 'g') || is_single_char(
                    &t5,
                    'G',
                );
                if !opcode {
                    match parse_u64_str(&tokens[i + 5]) {
                        Some(l) => {
                            sequence_length = Some(l);
                            len_used = 6;
                        },
                        None => {},
                    }
                }
            }
            let ghost more = su.len() > 5 && !is_opcode_token(su[5])
                && crate::text::spec_parse_u64(su[5]) is Some;
            proof {
                assert(more == (len_used == 6));
                if more {
                    assert(sequence_length == crate::text::spec_parse_u64(su[5]));
                }
            }
            let coord = Coordinate { species, chrom, offset, strand, sequence_length };
            op = if is_ins {
                CoordinateOp::Insertion { row, coord: Some(coord) }
            } else {
                CoordinateOp::Substitution { row, coord: Some(coord) }
            };
            used = len_used;
            proof {
                assert(su.skip(if more {
                    6int
                } else {
                    5int
                }) =~= tv.skip(i + used as int));
                assert(spec_parse_ops(su) == match spec_parse_ops(tv.skip(i + used as int)) {
                    Ok(rest) => Ok::<Seq<OpModel>, DecodeError>(seq![op@] + rest),
                    Err(e) => Err::<Seq<OpModel>, DecodeError>(e),
                });
            }
        } else if is_single_char(&op_tok, 'd') {
            if tokens.len() - i < 2 {
                return Err(DecodeError::TruncatedOp);
            }
            proof {
                assert(su[1] == tokens@[i + 1 as int]@);
            }
            let row = match parse_usize_str(&tokens[i + 1]) {
                Some(n) => n,
                None => {
                    return Err(DecodeError::BadNumber);
                },
            };
            op = CoordinateOp::Deletion { row };
            used = 2;
            proof {
                assert(su.skip(2) =~= tv.skip(i + 2 as int));
                assert(spec_parse_ops(su) == match spec_parse_ops(tv.skip(i + used as int)) {
                    Ok(rest) => Ok::<Seq<OpModel>, DecodeError>(seq![op@] + rest),
                    Err(e) => Err::<Seq<OpModel>, DecodeError>(e),
                });
            }
        } else if is_single_char(&op_tok, 'g') {
            if tokens.len() - i < 3 {
                return Err(DecodeError::TruncatedOp);
            }
            proof {
                assert(su[1] == tokens@[i + 1 as int]@);
                assert(su[2] == tokens@[i + 2 as int]@);
            }
            let row = match parse_usize_str(&tokens[i + 1]) {
                Some(n) => n,
                None => {
                    return Err(DecodeError::BadNumber);
                },
            };
            let gap_length = match parse_usize_str(&tokens[i + 2]) {
                Some(n) => n,
                None => {
                    return Err(DecodeError::BadNumber);
                },
            };
            op = CoordinateOp::Gap { row, gap_length };
            used = 3;
            proof {
                assert(su.skip(3) =~= tv.skip(i + 3 as int));
                assert(spec_parse_ops(su) == match spec_parse_ops(tv.skip(i + used as int)) {
                    Ok(rest) => Ok::<Seq<OpModel>, DecodeError>(seq![op@] + rest),
                    Err(e) => Err::<Seq<OpModel>, DecodeError>(e),
                });
            }
        } else if is_single_char(&op_tok, 'G') {
            if tokens.len() - i < 3 {
                return Err(DecodeError::TruncatedOp);
            }
            proof {
                assert(su[1] == tokens@[i + 1 as int]@);
                assert(su[2] == tokens@[i + 2 as int]@);
            }
            let row = match parse_usize_str(&tokens[i + 1]) {
                Some(n) => n,
                None => {
                    return Err(DecodeError::BadNumber);
                },
            };
            let gap_string = tokens[i + 2].clone();
            op = CoordinateOp::GapString { row, gap_string };
            used = 3;
            proof {
                assert(su.skip(3) =~= tv.skip(i + 3 as int));
                assert(spec_parse_ops(su) == match spec_parse_ops(tv.skip(i + used as int)) {
                    Ok(rest) => Ok::<Seq<OpModel>, DecodeError>(seq![op@] + rest),
                    Err(e) => Err::<Seq<OpModel>, DecodeError>(e),
                });
            }
        } else {
            return Err(DecodeError::UnknownOp);
        }
        let ghost ops_before = ops@;
        let ghost tail = spec_parse_ops(tv.skip(i + used as int));
        ops.push(op);
        i += used;
        proof {
            assert(ops_view(ops_before.push(op)) =~= ops_view(ops_before) + seq![op@]);
            match tail {
                Ok(rest) => {
                    assert((ops_view(ops_before) + seq![op@]) + rest =~= ops_view(ops_before) + (
                    seq![op@] + rest));
                },
                Err(_) => {},
            }
        }
    }
    proof {
        assert(tv.skip(tv.len() as int) =~= Seq::<Seq<char>>::empty());
        assert(ops_view(ops@) + Seq::<OpModel>::empty() =~= ops_view(ops@));
    }
    Ok(ops)
}

// ---------------------------------------------------------------------------
// Tags
// ---------------------------------------------------------------------------
/// What a run of tag tokens parses to: each token holding a colon
/// becomes a key:value pair, split at its first colon; others are
/// dropped.
pub open spec fn spec_parse_tags(toks: Seq<Seq<char>>) -> Seq<(Seq<char>, Seq<char>)>
    decreases toks.len(),
{
    if toks.len() == 0 {
        seq![]
    } else {
        match spec_split_once(toks[0], ':') {
            Some(kv) => seq![kv] + spec_parse_tags(toks.skip(1)),
            None => spec_parse_tags(toks.skip(1)),
        }
    }
}

/// Decodes a run of tag tokens into key:value pairs.
pub fn parse_tags(tokens: &Vec<String>) -> (r: Vec<(String, String)>)
    ensures
        pairs_view(r@) == spec_parse_tags(tokens.deep_view()),
{
    let ghost tv = tokens.deep_view();
    let mut out: Vec<(String, String)> = Vec::new();
    let mut i: usize = 0;
    proof {
        assert(tv.skip(0) =~= tv);
        assert(pairs_view(out@) + spec_parse_tags(tv) =~= spec_parse_tags(tv));
    }
    while i < tokens.len()
        invariant
            i <= tokens.len(),
            tv == tokens.deep_view(),
            pairs_view(out@) + spec_parse_tags(tv.skip(i as int)) =~= spec_parse_tags(tv),
        decreases tokens.len() - i,
    {
        proof {
            assert(tv.skip(i as int)[0] == tokens@[i as int]@);
            assert(tv.skip(i as int).skip(1) =~= tv.skip(i + 1 as int));
        }
        let cs = chars_of(tokens[i].as_str());
        match split_once_chars(&cs, ':') {
            Some(p) => {
                let pair = (string_from_chars(&p.0), string_from_chars(&p.1));
                proof {
                    assert(pairs_view(out@.push(pair)) =~= pairs_view(out@) + seq![
                        (pair.0@, pair.1@),
                    ]);
                }
                out.push(pair);
            },
            None => {},
        }
        i += 1;
        proof {
            assert(pairs_view(out@) + spec_parse_tags(tv.skip(i as int)) =~= spec_parse_tags(tv));
        }
    }
    proof {
        assert(tv.skip(tv.len() as int) =~= Seq::<Seq<char>>::empty());
        assert(pairs_view(out@) + spec_parse_tags(Seq::<Seq<char>>::empty()) =~= pairs_view(
            out@,
        ));
    }
    out
}

// ---------------------------------------------------------------------------
// Copies
// ---------------------------------------------------------------------------
impl Coordinate {
    /// A copy of this coordinate, equal at the model level.
    pub fn duplicate(&self) -> (r: Coordinate)
        ensures
            r@ == self@,
    {
        Coordinate {
            species: self.species.clone(),
            chrom: self.chrom.clone(),
            offset: self.offset,
            strand: self.strand,
            sequence_length: self.sequence_length,
        }
    }
}

impl CoordinateOp {
    /// A copy of this operation, equal at the model level.
    pub fn duplicate(&self) -> (r: CoordinateOp)
        ensures
            r@ == self@,
    {
        match self {
            CoordinateOp::Insertion { row, coord } => CoordinateOp::Insertion {
                row: *row,
                coord: match coord {
                    Some(c) => Some(c.duplicate()),
                    None => None,
                },
            },
            CoordinateOp::Deletion { row } => CoordinateOp::Deletion { row: *row },
            CoordinateOp::Substitution { row, coord } => CoordinateOp::Substitution {
                row: *row,
                coord: match coord {
                    Some(c) => Some(c.duplicate()),
                    None => None,
                },
            },
            CoordinateOp::Gap { row, gap_length } => CoordinateOp::Gap {
                row: *row,
                gap_length: *gap_length,
            },
            CoordinateOp::GapString { row, gap_string } => CoordinateOp::GapString {
                row: *row,
                gap_string: gap_string.clone(),
            },
        }
    }
}

impl TafColumn {
    /// A copy of this column, equal at the model level.
    pub fn duplicate(&self) -> (r: TafColumn)
        ensures
            r@ == self@,
    {
        let raw_bases = self.raw_bases.clone();
        let alleles = chars_range(&self.alleles, 0, self.alleles.len());
        proof {
            assert(alleles@ =~= self.alleles@);
        }
        let mut coordinates: Vec<CoordinateOp> = Vec::new();
        let mut i: usize = 0;
        while i < self.coordinates.len()
            invariant
                i <= self.coordinates.len(),
                coordinates@.len() == i,
                forall|j: int|
                    0 <= j < i ==> ops_view(coordinates@)[j] == ops_view(self.coordinates@)[j],
            decreases self.coordinates.len() - i,
        {
            let ghost before = coordinates@;
            let d = self.coordinates[i].duplicate();
            coordinates.push(d);
            proof {
                assert forall|j: int| 0 <= j <= i as int implies ops_view(coordinates@)[j]
                    == ops_view(self.coordinates@)[j] by {
                    if j < i as int {
                        assert(coordinates@[j] == before[j]);
                        assert(ops_view(before)[j] == before[j]@);
                    } else {
                        assert(coordinates@[j] == d);
                    }
                }
            }
            i += 1;
        }
        proof {
            assert(ops_view(coordinates@) =~= ops_view(self.coordinates@));
        }
        let mut tags: Vec<(String, String)> = Vec::new();
        let mut k: usize = 0;
        while k < self.tags.len()
            invariant
                k <= self.tags.len(),
                tags@.len() == k,
                forall|j: int| 0 <= j < k ==> pairs_view(tags@)[j] == pairs_view(self.tags@)[j],
            decreases self.tags.len() - k,
        {
            let ghost before = tags@;
            let p = (self.tags[k].0.clone(), self.tags[k].1.clone());
            tags.push(p);
            proof {
                assert forall|j: int| 0 <= j <= k as int implies pairs_view(tags@)[j]
                    == pairs_view(self.tags@)[j] by {
                    if j < k as int {
                        assert(tags@[j] == before[j]);
                        assert(pairs_view(before)[j] == (before[j].0@, before[j].1@));
                    } else {
                        assert(tags@[j] == p);
                    }
                }
            }
            k += 1;
        }
        proof {
            assert(pairs_view(tags@) =~= pairs_view(self.tags@));
        }
        let r = TafColumn { raw_bases, alleles, coordinates, tags };
        proof {
            assert(r@ =~~= self@);
        }
        r
    }
}

// ---------------------------------------------------------------------------
// Column lines
// ---------------------------------------------------------------------------
/// True when a token begins the coordinate or tag part of a column line:
/// the separator `;` or a tag token starting with `@`.
pub open spec fn is_bases_boundary(t: Seq<char>) -> bool {
    t == seq![';'] || (t.len() > 0 && t[0] == '@')
}

/// How many leading tokens belong to the allele field.
pub open spec fn bases_count(toks: Seq<Seq<char>>) -> int
    decreases toks.len(),
{
    if toks.len() <= 0 {
        0
    } else if is_bases_boundary(toks[0]) {
        0
    } else {
        1 + bases_count(toks.skip(1))
    }
}

/// `bases_count` lies in `[0, toks.len()]`, no boundary token comes
/// before it, and the token at it (if any) is a boundary.
pub proof fn lemma_bases_count(toks: Seq<Seq<char>>)
    ensures
        0 <= bases_count(toks) <= toks.len(),
        forall|j: int| 0 <= j < bases_count(toks) ==> !is_bases_boundary(#[trigger] toks[j]),
        bases_count(toks) < toks.len() ==> is_bases_boundary(toks[bases_count(toks)]),
    decreases toks.len(),
{
    if toks.len() > 0 && !is_bases_boundary(toks[0]) {
        lemma_bases_count(toks.skip(1));
        assert forall|j: int| 0 <= j < bases_count(toks) implies !is_bases_boundary(
            #[trigger] toks[j],
        ) by {
            if j > 0 {
                assert(toks[j] == toks.skip(1)[j - 1]);
            }
        }
        if bases_count(toks) < toks.len() {
            assert(toks[bases_count(toks)] == toks.skip(1)[bases_count(toks.skip(1))]);
        }
    }
}

/// `bases_count` is the unique index with the properties above.
pub proof fn lemma_bases_count_is(toks: Seq<Seq<char>>, k: int)
    requires
        0 <= k <= toks.len(),
        forall|j: int| 0 <= j < k ==> !is_bases_boundary(#[trigger] toks[j]),
        k < toks.len() ==> is_bases_boundary(toks[k]),
    ensures
        bases_count(toks) == k,
{
    lemma_bases_count(toks);
    let f = bases_count(toks);
    if f < k {
        assert(!is_bases_boundary(toks[f]));
    }
    if k < f {
        assert(!is_bases_boundary(toks[k]));
    }
}

/// The concatenation of a list of character sequences, in order.
pub open spec fn concat_all(toks: Seq<Seq<char>>) -> Seq<char>
    decreases toks.len(),
{
    if toks.len() <= 0 {
        seq![]
    } else {
        toks[0] + concat_all(toks.skip(1))
    }
}

/// Concatenation distributes over appending one more sequence.
pub proof fn lemma_concat_all_snoc(toks: Seq<Seq<char>>, t: Seq<char>)
    ensures
        concat_all(toks.push(t)) == concat_all(toks) + t,
    decreases toks.len(),
{
    if toks.len() == 0 {
        assert(toks.push(t)[0] == t);
        assert(toks.push(t).skip(1) =~= Seq::<Seq<char>>::empty());
        assert(t + concat_all(Seq::<Seq<char>>::empty()) =~= concat_all(toks) + t);
    } else {
        assert(toks.push(t).skip(1) =~= toks.skip(1).push(t));
        lemma_concat_all_snoc(toks.skip(1), t);
        assert(toks.push(t)[0] == toks[0]);
        assert(toks[0] + (concat_all(toks.skip(1)) + t) =~= (toks[0] + concat_all(toks.skip(1)))
            + t);
    }
}

/// How many leading tokens do not begin with `@`.
pub open spec fn at_run(toks: Seq<Seq<char>>) -> int
    decreases toks.len(),
{
    if toks.len() <= 0 {
        0
    } else if toks[0].len() > 0 && toks[0][0] == '@' {
        0
    } else {
        1 + at_run(toks.skip(1))
    }
}

/// `at_run` lies in `[0, toks.len()]`, no token before it begins with
/// `@`, and the token at it (if any) does.
pub proof fn lemma_at_run(toks: Seq<Seq<char>>)
    ensures
        0 <= at_run(toks) <= toks.len(),
        forall|j: int|
            0 <= j < at_run(toks) ==> !((#[trigger] toks[j]).len() > 0 && toks[j][0] == '@'),
        at_run(toks) < toks.len() ==> toks[at_run(toks)].len() > 0 && toks[at_run(toks)][0]
            == '@',
    decreases toks.len(),
{
    if toks.len() > 0 && !(toks[0].len() > 0 && toks[0][0] == '@') {
        lemma_at_run(toks.skip(1));
        assert forall|j: int| 0 <= j < at_run(toks) implies !((#[trigger] toks[j]).len() > 0
            && toks[j][0] == '@') by {
            if j > 0 {
                assert(toks[j] == toks.skip(1)[j - 1]);
            }
        }
        if at_run(toks) < toks.len() {
            assert(toks[at_run(toks)] == toks.skip(1)[at_run(toks.skip(1))]);
        }
    }
}

/// `at_run` is the unique index with the properties above.
pub proof fn lemma_at_run_is(toks: Seq<Seq<char>>, k: int)
    requires
        0 <= k <= toks.len(),
        forall|j: int|
            0 <= j < k ==> !((#[trigger] toks[j]).len() > 0 && toks[j][0] == '@'),
        k < toks.len() ==> toks[k].len() > 0 && toks[k][0] == '@',
    ensures
        at_run(toks) == k,
{
    lemma_at_run(toks);
    let f = at_run(toks);
    if f < k {
        assert(!(toks[f].len() > 0 && toks[f][0] == '@'));
    }
    if k < f {
        assert(!(toks[k].len() > 0 && toks[k][0] == '@'));
    }
}

/// The coordinate-operation tokens and tag tokens of the part of a
/// column line after the allele field: a `;` introduces coordinate
/// tokens up to the next `@`-token; an `@`-token introduces the tags,
/// which take the whole remainder of the line; other tokens are skipped.
pub open spec fn spec_collect_extras(toks: Seq<Seq<char>>) -> (Seq<Seq<char>>, Seq<Seq<char>>)
    decreases toks.len(),
    via spec_collect_extras_dec
{
    if toks.len() <= 0 {
        (seq![], seq![])
    } else if toks[0] == seq![';'] {
        let n = at_run(toks.skip(1));
        let pr = spec_collect_extras(toks.skip(1 + n));
        (toks.skip(1).take(n) + pr.0, pr.1)
    } else if toks[0].len() > 0 && toks[0][0] == '@' {
        (seq![], seq![toks[0].skip(1)] + toks.skip(1))
    } else {
        spec_collect_extras(toks.skip(1))
    }
}

#[via_fn]
proof fn spec_collect_extras_dec(toks: Seq<Seq<char>>) {
    if toks.len() > 0 {
        lemma_at_run(toks.skip(1));
    }
}

/// What one column line parses to: the allele field (a run of tokens in
/// run-length mode, the first token otherwise), decoded to one allele
/// per row, then coordinate operations and tags.
pub open spec fn spec_parse_column(line: Seq<char>, run_length: bool) -> Result<
    ColumnModel,
    DecodeError,
> {
    let toks = crate::text::spec_tokenize(line);
    if toks.len() == 0 {
        Err(DecodeError::EmptyLine)
    } else {
        let nb: int = if run_length {
            bases_count(toks)
        } else {
            1
        };
        let raw = if run_length {
            concat_all(toks.take(nb))
        } else {
            toks[0]
        };
        match spec_decode_bases(raw, run_length) {
            Err(e) => Err(e),
            Ok(alleles) => {
                let extras = spec_collect_extras(toks.skip(nb));
                match spec_parse_ops(extras.0) {
                    Err(e) => Err(e),
                    Ok(ops) => Ok(
                        ColumnModel {
                            raw_bases: raw,
                            alleles,
                            coordinates: ops,
                            tags: spec_parse_tags(extras.1),
                        },
                    ),
                }
            },
        }
    }
}

/// Decodes one trimmed column line.
pub fn parse_taf_column(line: &str, run_length: bool) -> (r: Result<TafColumn, DecodeError>)
    ensures
        match r {
            Ok(col) => spec_parse_column(line@, run_length) == Ok::<ColumnModel, DecodeError>(
                col@,
            ),
            Err(e) => spec_parse_column(line@, run_length) == Err::<ColumnModel, DecodeError>(e),
        },
{
    let cs = chars_of(line);
    let toks = crate::text::tokenize_chars(&cs);
    let ghost tv = toks.deep_view();
    proof {
        assert(tv.len() == toks@.len());
    }
    if toks.len() == 0 {
        return Err(DecodeError::EmptyLine);
    }
    // The allele field.
    let mut raw_chars: Vec<char> = Vec::new();
    let nb: usize;
    if run_length {
        let mut k: usize = 0;
        proof {
            assert(tv.take(0) =~= Seq::<Seq<char>>::empty());
        }
        while k < toks.len() && !(is_single_char(&toks[k], ';') || crate::text::first_char_is(
            &toks[k],
            '@',
        ))
            invariant
                k <= toks.len(),
                tv == toks.deep_view(),
                tv.len() == toks@.len(),
                forall|j: int| 0 <= j < k ==> !is_bases_boundary(#[trigger] tv[j]),
                raw_chars@ == concat_all(tv.take(k as int)),
            decreases toks.len() - k,
        {
            proof {
                assert(tv[k as int] == toks@[k as int]@);
            }
            let tok = &toks[k];
            let mut c: usize = 0;
            while c < tok.len()
                invariant
                    c <= tok.len(),
                    raw_chars@ == concat_all(tv.take(k as int)) + tok@.take(c as int),
                    tok@ == toks@[k as int]@,
                decreases tok.len() - c,
            {
                raw_chars.push(tok[c]);
                proof {
                    assert(tok@.take(c + 1 as int) =~= tok@.take(c as int).push(tok@[c as int]));
                    assert(concat_all(tv.take(k as int)) + tok@.take(c + 1 as int)
                        =~= (concat_all(tv.take(k as int)) + tok@.take(c as int)).push(
                        tok@[c as int],
                    ));
                }
                c += 1;
            }
            proof {
                assert(tok@.take(tok@.len() as int) =~= tok@);
                assert(tv.take(k + 1 as int) =~= tv.take(k as int).push(tv[k as int]));
                lemma_concat_all_snoc(tv.take(k as int), tv[k as int]);
            }
            k += 1;
        }
        proof {
            if k < toks.len() {
                assert(tv[k as int] == toks@[k as int]@);
                assert(is_bases_boundary(tv[k as int]));
            }
            lemma_bases_count_is(tv, k as int);
        }
        nb = k;
    } else {
        proof {
            assert(tv[0] == toks@[0]@);
        }
        let tok = &toks[0];
        raw_chars = crate::text::chars_range(tok, 0, tok.len());
        proof {
            assert(raw_chars@ =~= tv[0]);
        }
        nb = 1;
    }
    let raw_bases = string_from_chars(&raw_chars);
    let alleles = match decode_bases(raw_bases.as_str(), run_length) {
        Ok(v) => v,
        Err(e) => {
            return Err(e);
        },
    };
    // Coordinate and tag tokens.
    let ghost extras = spec_collect_extras(tv.skip(nb as int));
    let mut coord_toks: Vec<String> = Vec::new();
    let mut tag_toks: Vec<String> = Vec::new();
    let mut i: usize = nb;
    proof {
        assert(coord_toks.deep_view() + spec_collect_extras(tv.skip(i as int)).0 =~~= extras.0);
        assert(tag_toks.deep_view() + spec_collect_extras(tv.skip(i as int)).1 =~~= extras.1);
    }
    while i < toks.len()
        invariant
            nb <= i <= toks.len(),
            tv == toks.deep_view(),
            tv.len() == toks@.len(),
            extras == spec_collect_extras(tv.skip(nb as int)),
            coord_toks.deep_view() + spec_collect_extras(tv.skip(i as int)).0 =~~= extras.0,
            tag_toks.deep_view() + spec_collect_extras(tv.skip(i as int)).1 =~~= extras.1,
        decreases toks.len() - i,
    {
        let ghost su = tv.skip(i as int);
        proof {
            assert(su[0] == tv[i as int]);
            assert(tv[i as int] == toks@[i as int]@);
        }
        if is_single_char(&toks[i], ';') {
            let mut j: usize = i + 1;
            while j < toks.len() && !crate::text::first_char_is(&toks[j], '@')
                invariant
                    i + 1 <= j <= toks.len(),
                    tv == toks.deep_view(),
                    tv.len() == toks@.len(),
                    forall|m: int|
                        i + 1 <= m < j ==> !((#[trigger] tv[m]).len() > 0 && tv[m][0] == '@'),
                decreases toks.len() - j,
            {
                proof {
                    assert(tv[j as int] == toks@[j as int]@);
                }
                j += 1;
            }
            let ghost run = su.skip(1);
            proof {
                assert forall|m: int| 0 <= m < j - i - 1 implies !((#[trigger] run[m]).len() > 0
                    && run[m][0] == '@') by {
                    assert(run[m] == tv[i + 1 + m]);
                }
                if j < toks.len() {
                    assert(tv[j as int] == toks@[j as int]@);
                    assert(run[j - i - 1] == tv[j as int]);
                }
                lemma_at_run_is(run, j - i - 1);
                assert(su.skip(1 + (j - i - 1)) =~= tv.skip(j as int));
                assert(run.take(j - i - 1) =~= tv.subrange(i + 1 as int, j as int));
            }
            let ghost coord_before = coord_toks.deep_view();
            let mut m: usize = i + 1;
            while m < j
                invariant
                    i + 1 <= m <= j <= toks.len(),
                    tv == toks.deep_view(),
                    tv.len() == toks@.len(),
                    coord_toks.deep_view() =~~= coord_before + tv.subrange(i + 1 as int, m as int),
                decreases j - m,
            {
                proof {
                    assert(tv[m as int] == toks@[m as int]@);
                }
                let t = crate::text::chars_range(&toks[m], 0, toks[m].len());
                let ts = string_from_chars(&t);
                proof {
                    assert(ts@ == tv[m as int]);
                }
                crate::text::push_string(&mut coord_toks, ts);
                proof {
                    assert(tv.subrange(i + 1 as int, m + 1 as int) =~= tv.subrange(
                        i + 1 as int,
                        m as int,
                    ).push(tv[m as int]));
                    assert(coord_toks.deep_view() =~~= coord_before + tv.subrange(
                        i + 1 as int,
                        m + 1 as int,
                    ));
                }
                m += 1;
            }
            i = j;
            proof {
                assert(coord_toks.deep_view() + spec_collect_extras(tv.skip(i as int)).0
                    =~~= extras.0);
                assert(tag_toks.deep_view() + spec_collect_extras(tv.skip(i as int)).1
                    =~~= extras.1);
            }
        } else if crate::text::first_char_is(&toks[i], '@') {
            let t0 = crate::text::chars_range(&toks[i], 1, toks[i].len());
            let ts0 = string_from_chars(&t0);
            proof {
                assert(t0@ =~= su[0].skip(1));
            }
            crate::text::push_string(&mut tag_toks, ts0);
            let ghost tag_before = tag_toks.deep_view();
            let mut m: usize = i + 1;
            while m < toks.len()
                invariant
                    i + 1 <= m <= toks.len(),
                    tv == toks.deep_view(),
                    tv.len() == toks@.len(),
                    tag_toks.deep_view() =~~= tag_before + tv.subrange(i + 1 as int, m as int),
                decreases toks.len() - m,
            {
                proof {
                    assert(tv[m as int] == toks@[m as int]@);
                }
                let t = crate::text::chars_range(&toks[m], 0, toks[m].len());
                let ts = string_from_chars(&t);
                proof {
                    assert(ts@ == tv[m as int]);
                }
                crate::text::push_string(&mut tag_toks, ts);
                proof {
                    assert(tv.subrange(i + 1 as int, m + 1 as int) =~= tv.subrange(
                        i + 1 as int,
                        m as int,
                    ).push(tv[m as int]));
                    assert(tag_toks.deep_view() =~~= tag_before + tv.subrange(
                        i + 1 as int,
                        m + 1 as int,
                    ));
                }
                m += 1;
            }
            proof {
                assert(tv.subrange(i + 1 as int, tv.len() as int) =~= su.skip(1));
                assert(spec_collect_extras(su).1 =~= seq![su[0].skip(1)] + su.skip(1));
                assert(tag_toks.deep_view() =~~= tag_before + su.skip(1));
                assert(tv.skip(tv.len() as int) =~= Seq::<Seq<char>>::empty());
                assert(coord_toks.deep_view() + spec_collect_extras(
                    tv.skip(tv.len() as int),
                ).0 =~~= extras.0);
                assert(tag_toks.deep_view() + spec_collect_extras(tv.skip(tv.len() as int)).1
                    =~~= extras.1);
            }
            i = toks.len();
        } else {
            proof {
                assert(su.skip(1) =~= tv.skip(i + 1 as int));
            }
            i += 1;
        }
    }
    proof {
        assert(tv.skip(tv.len() as int) =~= Seq::<Seq<char>>::empty());
        assert(coord_toks.deep_view() =~~= extras.0);
        assert(tag_toks.deep_view() =~~= extras.1);
    }
    let coordinates = match parse_coordinate_ops(&coord_toks) {
        Ok(v) => v,
        Err(e) => {
            return Err(e);
        },
    };
    let tags = parse_tags(&tag_toks);
    let col = TafColumn { raw_bases, alleles, coordinates, tags };
    proof {
        assert(spec_parse_column(line@, run_length) == Ok::<ColumnModel, DecodeError>(col@));
    }
    Ok(col)
}


/// Run-length decoding never reports a block failure.
proof fn lemma_rle_no_block_error(s: Seq<char>)
    ensures
        spec_rle_decode(s) != Err::<Seq<char>, DecodeError>(DecodeError::BadBlock),
    decreases s.len(),
{
    if s.len() > 0 {
        lemma_digit_run(s.skip(1));
        let d = digit_run(s.skip(1));
        if d != 0 && digits_val(s.skip(1).take(d)) <= usize::MAX {
            lemma_rle_no_block_error(s.skip(1 + d));
        }
    }
}

/// Operation decoding never reports a block failure.
proof fn lemma_parse_ops_no_block_error(toks: Seq<Seq<char>>)
    ensures
        spec_parse_ops(toks) != Err::<Seq<OpModel>, DecodeError>(DecodeError::BadBlock),
    decreases toks.len(),
{
    if toks.len() > 0 {
        if toks[0] == seq!['i'] || toks[0] == seq!['s'] {
            if toks.len() >= 5 {
                let more = toks.len() > 5 && !is_opcode_token(toks[5])
                    && crate::text::spec_parse_u64(toks[5]) is Some;
                lemma_parse_ops_no_block_error(toks.skip(if more {
                    6
                } else {
                    5
                }));
            }
        } else if toks[0] == seq!['d'] {
            if toks.len() >= 2 {
                lemma_parse_ops_no_block_error(toks.skip(2));
            }
        } else if toks[0] == seq!['g'] || toks[0] == seq!['G'] {
            if toks.len() >= 3 {
                lemma_parse_ops_no_block_error(toks.skip(3));
            }
        }
    }
}

/// A column line's decode error is never the block failure: that error
/// belongs to the compressed transport alone.
pub proof fn lemma_parse_column_no_block_error(l: Seq<char>, run_length: bool)
    ensures
        spec_parse_column(l, run_length) != Err::<ColumnModel, DecodeError>(
            DecodeError::BadBlock,
        ),
{
    let toks = crate::text::spec_tokenize(l);
    if toks.len() > 0 {
        let nb: int = if run_length {
            bases_count(toks)
        } else {
            1
        };
        let raw = if run_length {
            concat_all(toks.take(nb))
        } else {
            toks[0]
        };
        if run_length {
            lemma_rle_no_block_error(raw);
        }
        match spec_decode_bases(raw, run_length) {
            Err(_) => {},
            Ok(_) => {
                lemma_parse_ops_no_block_error(spec_collect_extras(toks.skip(nb)).0);
            },
        }
    }
}

// ---------------------------------------------------------------------------
// The header line
// ---------------------------------------------------------------------------
/// `s` without its leading `#` characters.
pub open spec fn strip_hashes(s: Seq<char>) -> Seq<char>
    decreases s.len(),
{
    if s.len() > 0 && s[0] == '#' {
        strip_hashes(s.skip(1))
    } else {
        s
    }
}

proof fn lemma_strip_hashes_skip(s: Seq<char>, lo: int)
    requires
        0 <= lo <= s.len(),
        forall|j: int| 0 <= j < lo ==> #[trigger] s[j] == '#',
        lo < s.len() ==> s[lo] != '#',
    ensures
        strip_hashes(s) == s.skip(lo),
    decreases lo,
{
    if lo == 0 {
        assert(s.skip(0) =~= s);
    } else {
        lemma_strip_hashes_skip(s.skip(1), lo - 1);
        assert(s.skip(1).skip(lo - 1) =~= s.skip(lo));
    }
}

/// What the header line parses to: its leading hash marks are stripped,
/// the first token (the format name) is skipped, and the rest are read
/// as key:value tags.
pub open spec fn spec_parse_taf_header(line: Seq<char>) -> Seq<(Seq<char>, Seq<char>)> {
    let toks = crate::text::spec_tokenize(strip_hashes(line));
    if toks.len() == 0 {
        seq![]
    } else {
        spec_parse_tags(toks.skip(1))
    }
}

/// Decodes the header line of the alignment format.
pub fn parse_taf_header(line: &str) -> (r: TafHeader)
    ensures
        pairs_view(r.tags@) == spec_parse_taf_header(line@),
{
    let cs = chars_of(line);
    let mut lo: usize = 0;
    while lo < cs.len() && cs[lo] == '#'
        invariant
            lo <= cs.len(),
            cs@ == line@,
            forall|j: int| 0 <= j < lo ==> #[trigger] cs@[j] == '#',
        decreases cs.len() - lo,
    {
        lo += 1;
    }
    proof {
        lemma_strip_hashes_skip(cs@, lo as int);
    }
    let rest = crate::text::chars_range(&cs, lo, cs.len());
    proof {
        assert(rest@ =~= cs@.skip(lo as int));
    }
    let toks = crate::text::tokenize_chars(&rest);
    let ghost tv = toks.deep_view();
    proof {
        assert(tv.len() == toks@.len());
    }
    if toks.len() == 0 {
        let r = TafHeader { tags: Vec::new() };
        proof {
            assert(pairs_view(r.tags@) =~= spec_parse_taf_header(line@));
        }
        return r;
    }
    let mut rest_toks: Vec<String> = Vec::new();
    let mut k: usize = 1;
    proof {
        assert(rest_toks.deep_view() =~~= tv.subrange(1, 1));
    }
    while k < toks.len()
        invariant
            1 <= k <= toks.len(),
            tv == toks.deep_view(),
            tv.len() == toks@.len(),
            rest_toks.deep_view() =~~= tv.subrange(1, k as int),
        decreases toks.len() - k,
    {
        proof {
            assert(tv[k as int] == toks@[k as int]@);
        }
        let t = crate::text::chars_range(&toks[k], 0, toks[k].len());
        let ts = string_from_chars(&t);
        proof {
            assert(ts@ == tv[k as int]);
        }
        crate::text::push_string(&mut rest_toks, ts);
        proof {
            assert(tv.subrange(1, k + 1 as int) =~= tv.subrange(1, k as int).push(tv[k as int]));
            assert(rest_toks.deep_view() =~~= tv.subrange(1, k + 1 as int));
        }
        k += 1;
    }
    proof {
        assert(tv.subrange(1, tv.len() as int) =~= tv.skip(1));
    }
    let tags = parse_tags(&rest_toks);
    TafHeader { tags }
}

} // verus!
