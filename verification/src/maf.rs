//! The line-oriented alignment-block format: a paragraph of sequence
//! lines per block, each line carrying a dotted sequence name, a start,
//! a length, a strand, a source size and the aligned text.  Blocks are
//! separated by blank lines.
use vstd::prelude::*;
use vstd::string::StringExecFns;

use crate::taf::Strand;
use crate::text::chars_of;
use crate::text::spec_split_char;
use crate::text::spec_parse_u64;
use crate::text::spec_tokenize;
use crate::text::spec_u64_digits;
use crate::text::split_char_chars;
use crate::text::string_from_chars;
use crate::text::string_range;
use crate::text::tokenize_chars;
use crate::text::u64_to_string;
use crate::text::parse_u64_chars;
use crate::text::is_single_char;
use crate::text::push_char;

verus! {

/// Where a position lies relative to a block or coordinate interval.
#[derive(Debug, Eq, PartialEq, Structural, Clone, Copy)]
pub enum ContainsResult {
    True,
    Before,
    After,
    WrongChrom,
}

/// How the line-oriented reader classifies the line last seen.
#[derive(Debug, Eq, PartialEq, Structural, Clone, Copy)]
pub enum MafReadState {
    Comment,
    AlignmentBlockLine,
    SequenceLine,
    BlankLine,
}

/// Why a line of the block format could not be read.
#[derive(Debug, Eq, PartialEq, Structural, Clone, Copy)]
pub enum MafError {
    /// A sequence line with too few fields, an undotted name, a bad
    /// number or a bad strand.
    BadLine,
}

/// One classified line of the block format.
#[derive(Debug, Clone)]
pub enum MafLine {
    Comment(String),
    AlignmentBlockLine(String),
    SequenceLine(String, String, u64, u64, Strand, u64, String),
    BlankLine,
}

/// Model of a `MafLine`.
#[verifier::ext_equal]
pub enum MafLineModel {
    Comment(Seq<char>),
    AlignmentBlockLine(Seq<char>),
    SequenceLine(Seq<char>, Seq<char>, u64, u64, Strand, u64, Seq<char>),
    BlankLine,
}

impl View for MafLine {
    type V = MafLineModel;

    open spec fn view(&self) -> MafLineModel {
        match self {
            MafLine::Comment(x) => MafLineModel::Comment(x@),
            MafLine::AlignmentBlockLine(x) => MafLineModel::AlignmentBlockLine(x@),
            MafLine::SequenceLine(sp, id, st, ln, sd, sz, tx) => MafLineModel::SequenceLine(
                sp@,
                id@,
                *st,
                *ln,
                *sd,
                *sz,
                tx@,
            ),
            MafLine::BlankLine => MafLineModel::BlankLine,
        }
    }
}

/// The models of a list of lines.
pub open spec fn maf_lines_view(v: Seq<MafLine>) -> Seq<MafLineModel> {
    v.map_values(|l: MafLine| l@)
}

/// What one line classifies to: a `#` opens a comment, an `a` a block
/// marker, an `s` a sequence line read off its whitespace fields (the
/// dotted name split at its first two dot segments), and anything else
/// a blank line.  A sequence line with too few fields, an undotted
/// name, an unreadable number or a strand other than `+`/`-` is
/// rejected.
pub open spec fn spec_parse_maf_line(l: Seq<char>) -> Option<MafLineModel> {
    if l.len() == 0 {
        Some(MafLineModel::BlankLine)
    } else if l[0] == '#' {
        Some(MafLineModel::Comment(l.skip(1)))
    } else if l[0] == 'a' {
        Some(MafLineModel::AlignmentBlockLine(l.skip(1)))
    } else if l[0] == 's' {
        let toks = spec_tokenize(l);
        if toks.len() < 7 {
            None
        } else {
            let segs = spec_split_char(toks[1], '.');
            if segs.len() < 2 {
                None
            } else {
                match (spec_parse_u64(toks[2]), spec_parse_u64(toks[3]), spec_parse_u64(
                    toks[5],
                )) {
                    (Some(start), Some(length), Some(src_size)) => {
                        if toks[4] == seq!['+'] {
                            Some(
                                MafLineModel::SequenceLine(
                                    segs[0],
                                    segs[1],
                                    start,
                                    length,
                                    Strand::Plus,
                                    src_size,
                                    toks[6],
                                ),
                            )
                        } else if toks[4] == seq!['-'] {
                            Some(
                                MafLineModel::SequenceLine(
                                    segs[0],
                                    segs[1],
                                    start,
                                    length,
                                    Strand::Minus,
                                    src_size,
                                    toks[6],
                                ),
                            )
                        } else {
                            None
                        }
                    },
                    _ => None,
                }
            }
        }
    } else {
        Some(MafLineModel::BlankLine)
    }
}

/// Classifies one line; nothing when a sequence line is malformed.
pub fn parse_maf_line(line: &str) -> (r: Option<MafLine>)
    ensures
        match r {
            Some(m) => spec_parse_maf_line(line@) == Some(m@),
            None => spec_parse_maf_line(line@) is None,
        },
{
    let cs = chars_of(line);
    if cs.len() == 0 {
        return Some(MafLine::BlankLine);
    }
    let c0 = cs[0];
    if c0 == '#' {
        let rest = string_range(&cs, 1, cs.len());
        proof {
            assert(rest@ =~= cs@.skip(1));
        }
        return Some(MafLine::Comment(rest));
    }
    if c0 == 'a' {
        let rest = string_range(&cs, 1, cs.len());
        proof {
            assert(rest@ =~= cs@.skip(1));
        }
        return Some(MafLine::AlignmentBlockLine(rest));
    }
    if c0 == 's' {
        let toks = tokenize_chars(&cs);
        let ghost tv = toks.deep_view();
        proof {
            assert(tv.len() == toks@.len());
        }
        if toks.len() < 7 {
            return None;
        }
        proof {
            assert(tv[1] == toks@[1]@);
            assert(tv[2] == toks@[2]@);
            assert(tv[3] == toks@[3]@);
            assert(tv[4] == toks@[4]@);
            assert(tv[5] == toks@[5]@);
            assert(tv[6] == toks@[6]@);
        }
        let segs = split_char_chars(&toks[1], '.');
        proof {
            assert(segs.deep_view().len() == segs@.len());
        }
        if segs.len() < 2 {
            return None;
        }
        proof {
            assert(segs.deep_view()[0] == segs@[0]@);
            assert(segs.deep_view()[1] == segs@[1]@);
        }
        let start = match parse_u64_chars(&toks[2]) {
            Some(v) => v,
            None => {
                return None;
            },
        };
        let length = match parse_u64_chars(&toks[3]) {
            Some(v) => v,
            None => {
                return None;
            },
        };
        let plus = is_single_char(&toks[4], '+');
        let minus = is_single_char(&toks[4], '-');
        if !plus && !minus {
            return None;
        }
        let strand = if plus {
            Strand::Plus
        } else {
            Strand::Minus
        };
        let src_size = match parse_u64_chars(&toks[5]) {
            Some(v) => v,
            None => {
                return None;
            },
        };
        let species = string_from_chars(&segs[0]);
        let seqid = string_from_chars(&segs[1]);
        let text = string_from_chars(&toks[6]);
        return Some(MafLine::SequenceLine(species, seqid, start, length, strand, src_size, text));
    }
    Some(MafLine::BlankLine)
}

impl MafLine {
    /// True for a sequence line.
    pub fn is_seqline(&self) -> (r: bool)
        ensures
            r == (self@ is SequenceLine),
    {
        match self {
            MafLine::SequenceLine(..) => true,
            _ => false,
        }
    }

    /// The sequence-record text of a sequence line: a name line holding
    /// the sequence name, its interval and strand and source size, then
    /// the aligned text.
    pub fn fasta_out(&self) -> (r: String)
        requires
            self@ is SequenceLine,
            self@ matches MafLineModel::SequenceLine(_, _, start, length, _, _, _) ==> start
                + length <= u64::MAX,
        ensures
            self@ matches MafLineModel::SequenceLine(_, id, start, length, sd, sz, tx) && r@
                == seq!['>'] + id + seq![':'] + spec_u64_digits(start as int) + seq!['-']
                + spec_u64_digits(start + length) + seq![' '] + seq![
                if sd is Plus {
                    '+'
                } else {
                    '-'
                },
            ] + seq![' '] + spec_u64_digits(sz as int) + seq!['\n'] + tx + seq!['\n'],
    {
        match self {
            MafLine::SequenceLine(_sp, id, start, length, sd, sz, tx) => {
                let mut out = String::new();
                push_char(&mut out, '>');
                out.append(id.as_str());
                push_char(&mut out, ':');
                let a = u64_to_string(*start);
                out.append(a.as_str());
                push_char(&mut out, '-');
                let b = u64_to_string(*start + *length);
                out.append(b.as_str());
                push_char(&mut out, ' ');
                match sd {
                    Strand::Plus => push_char(&mut out, '+'),
                    Strand::Minus => push_char(&mut out, '-'),
                }
                push_char(&mut out, ' ');
                let c = u64_to_string(*sz);
                out.append(c.as_str());
                push_char(&mut out, '\n');
                out.append(tx.as_str());
                push_char(&mut out, '\n');
                proof {
                    assert(out@ =~= seq!['>'] + id@ + seq![':'] + spec_u64_digits(*start as int)
                        + seq!['-'] + spec_u64_digits(*start + *length) + seq![' '] + seq![
                        if *sd is Plus {
                            '+'
                        } else {
                            '-'
                        },
                    ] + seq![' '] + spec_u64_digits(*sz as int) + seq!['\n'] + tx@ + seq!['\n']);
                }
                out
            },
            _ => {
                proof {
                    assert(false);
                }
                String::new()
            },
        }
    }

    /// The line's own text form, as the block format writes it.
    pub fn to_line(&self) -> (r: String)
        ensures
            r@ == spec_maf_line_text(self@),
    {
        match self {
            MafLine::Comment(x) => {
                let mut out = String::new();
                push_char(&mut out, '#');
                out.append(x.as_str());
                proof {
                    assert(out@ =~= seq!['#'] + x@);
                }
                out
            },
            MafLine::AlignmentBlockLine(x) => {
                let mut out = String::new();
                push_char(&mut out, 'a');
                out.append(x.as_str());
                proof {
                    assert(out@ =~= seq!['a'] + x@);
                }
                out
            },
            MafLine::SequenceLine(sp, id, start, length, sd, sz, tx) => {
                let mut out = String::new();
                push_char(&mut out, 's');
                push_char(&mut out, ' ');
                out.append(sp.as_str());
                push_char(&mut out, ' ');
                out.append(id.as_str());
                push_char(&mut out, ' ');
                let a = u64_to_string(*start);
                out.append(a.as_str());
                push_char(&mut out, ' ');
                let b = u64_to_string(*length);
                out.append(b.as_str());
                push_char(&mut out, ' ');
                match sd {
                    Strand::Plus => push_char(&mut out, '+'),
                    Strand::Minus => push_char(&mut out, '-'),
                }
                push_char(&mut out, ' ');
                let c = u64_to_string(*sz);
                out.append(c.as_str());
                push_char(&mut out, ' ');
                out.append(tx.as_str());
                proof {
                    assert(out@ =~= spec_maf_line_text(self@));
                }
                out
            },
            MafLine::BlankLine => String::new(),
        }
    }

    /// A copy of this line, equal at the model level.
    pub fn duplicate(&self) -> (r: MafLine)
        ensures
            r@ == self@,
    {
        match self {
            MafLine::Comment(x) => MafLine::Comment(x.clone()),
            MafLine::AlignmentBlockLine(x) => MafLine::AlignmentBlockLine(x.clone()),
            MafLine::SequenceLine(sp, id, st, ln, sd, sz, tx) => MafLine::SequenceLine(
                sp.clone(),
                id.clone(),
                *st,
                *ln,
                *sd,
                *sz,
                tx.clone(),
            ),
            MafLine::BlankLine => MafLine::BlankLine,
        }
    }
}

/// The text form of one line.
pub open spec fn spec_maf_line_text(m: MafLineModel) -> Seq<char> {
    match m {
        MafLineModel::Comment(x) => seq!['#'] + x,
        MafLineModel::AlignmentBlockLine(x) => seq!['a'] + x,
        MafLineModel::SequenceLine(sp, id, start, length, sd, sz, tx) => seq!['s'] + seq![' ']
            + sp + seq![' '] + id + seq![' '] + spec_u64_digits(start as int) + seq![' ']
            + spec_u64_digits(length as int) + seq![' '] + seq![
            if sd is Plus {
                '+'
            } else {
                '-'
            },
        ] + seq![' '] + spec_u64_digits(sz as int) + seq![' '] + tx,
        MafLineModel::BlankLine => Seq::<char>::empty(),
    }
}

// ---------------------------------------------------------------------------
// Grouping lines into blocks
// ---------------------------------------------------------------------------
/// What the block reader yields next, scanning from line `i` with the
/// lines `acc` gathered so far: the next non-empty paragraph, or
/// nothing at the end of the input (a final paragraph without a
/// closing blank line is dropped, as the line-by-line reader drops it),
/// or the first malformed line's error.
pub open spec fn spec_next_block(
    lines: Seq<Seq<char>>,
    i: int,
    acc: Seq<MafLineModel>,
) -> Result<Option<(Seq<MafLineModel>, int)>, MafError>
    decreases lines.len() - i,
{
    if i >= lines.len() {
        Ok(None)
    } else {
        match spec_parse_maf_line(lines[i]) {
            None => Err(MafError::BadLine),
            Some(m) => {
                if m is BlankLine {
                    if acc.len() > 0 {
                        Ok(Some((acc, i + 1)))
                    } else {
                        spec_next_block(lines, i + 1, acc)
                    }
                } else {
                    spec_next_block(lines, i + 1, acc.push(m))
                }
            },
        }
    }
}

/// The block reader: classified lines grouped into blank-line-separated
/// paragraphs.
pub struct MafParser {
    lines: Vec<String>,
    pos: usize,
    current_block: Vec<MafLine>,
}

/// Builds a block reader over the file's lines.
pub fn maf_parser(lines: Vec<String>) -> (r: MafParser)
    ensures
        r.wf(),
        r.lines_model() == lines.deep_view(),
        r.pos_model() == 0,
        r.block_model() == Seq::<MafLineModel>::empty(),
{
    let r = MafParser { lines, pos: 0, current_block: Vec::new() };
    proof {
        assert(r.block_model() =~= Seq::<MafLineModel>::empty());
    }
    r
}

impl MafParser {
    /// The cursor stays within the lines.
    pub closed spec fn wf(&self) -> bool {
        self.pos <= self.lines@.len()
    }

    /// The file's lines.
    pub closed spec fn lines_model(&self) -> Seq<Seq<char>> {
        self.lines.deep_view()
    }

    /// The cursor.
    pub closed spec fn pos_model(&self) -> int {
        self.pos as int
    }

    /// The lines gathered for the paragraph in progress.
    pub closed spec fn block_model(&self) -> Seq<MafLineModel> {
        maf_lines_view(self.current_block@)
    }

    /// The next non-empty paragraph of classified lines, or nothing at
    /// the end of the input, or the first malformed line's error.
    #[verifier::loop_isolation(false)]
    pub fn next(&mut self) -> (r: Option<Result<Vec<MafLine>, MafError>>)
        requires
            old(self).wf(),
        ensures
            final(self).wf(),
            final(self).lines_model() == old(self).lines_model(),
            match spec_next_block(
                old(self).lines_model(),
                old(self).pos_model(),
                old(self).block_model(),
            ) {
                Err(e) => r matches Some(res) && res matches Err(e2) && e2 == e,
                Ok(opt) => match opt {
                    None => r is None,
                    Some(b) => r matches Some(res) && res matches Ok(block) && maf_lines_view(
                        block@,
                    ) == b.0 && final(self).pos_model() == b.1 && final(self).block_model()
                        == Seq::<MafLineModel>::empty(),
                },
            },
    {
        let ghost lv = self.lines.deep_view();
        let ghost p0 = self.pos as int;
        let ghost b0 = maf_lines_view(self.current_block@);
        proof {
            assert(lv.len() == self.lines@.len());
        }
        while self.pos < self.lines.len()
            invariant
                self.pos <= self.lines@.len(),
                self.lines.deep_view() == lv,
                spec_next_block(lv, p0, b0) == spec_next_block(
                    lv,
                    self.pos as int,
                    maf_lines_view(self.current_block@),
                ),
            decreases self.lines@.len() - self.pos,
        {
            proof {
                assert(lv[self.pos as int] == self.lines@[self.pos as int]@);
            }
            let line = &self.lines[self.pos];
            let parsed = parse_maf_line(line.as_str());
            self.pos = self.pos + 1;
            match parsed {
                None => {
                    return Some(Err(MafError::BadLine));
                },
                Some(x) => {
                    let blank = match &x {
                        MafLine::BlankLine => true,
                        _ => false,
                    };
                    if blank {
                        if self.current_block.len() > 0 {
                            let mut block: Vec<MafLine> = Vec::new();
                            std::mem::swap(&mut block, &mut self.current_block);
                            proof {
                                assert(maf_lines_view(self.current_block@)
                                    =~= Seq::<MafLineModel>::empty());
                            }
                            return Some(Ok(block));
                        }
                    } else {
                        let ghost prev = self.current_block@;
                        self.current_block.push(x);
                        proof {
                            assert(maf_lines_view(self.current_block@) =~= maf_lines_view(
                                prev,
                            ).push(self.current_block@[prev.len() as int]@));
                        }
                    }
                },
            }
        }
        None
    }
}

// ---------------------------------------------------------------------------
// Accumulated blocks
// ---------------------------------------------------------------------------
/// One alignment block gathered for processing: its sequence lines, the
/// species seen, and the reference interval of its first line.
#[derive(Debug)]
pub struct AlignmentBlock {
    pub species: Vec<String>,
    pub lines: Vec<MafLine>,
    pub seqid: String,
    pub start: u64,
    pub len: u64,
}

impl AlignmentBlock {
    /// Appends one line.
    pub fn add_line(&mut self, line: MafLine)
        ensures
            final(self).lines@.len() == old(self).lines@.len() + 1,
            maf_lines_view(final(self).lines@) == maf_lines_view(old(self).lines@).push(line@),
            final(self).species@ == old(self).species@,
            final(self).seqid@ == old(self).seqid@,
            final(self).start == old(self).start,
            final(self).len == old(self).len,
    {
        let ghost prev = self.lines@;
        self.lines.push(line);
        proof {
            assert(maf_lines_view(self.lines@) =~= maf_lines_view(prev).push(self.lines@[
                prev.len() as int]@));
        }
    }

    /// Where `pos` lies relative to this block's reference interval on
    /// `chrom`: the wrong chromosome, before the start, past the end
    /// (exclusive above `start + len`), or inside.
    pub fn contains_pos(&self, chrom: &String, pos: u64) -> (r: ContainsResult)
        ensures
            self.seqid@ != chrom@ ==> r == ContainsResult::WrongChrom,
            self.seqid@ == chrom@ && pos < self.start ==> r == ContainsResult::Before,
            self.seqid@ == chrom@ && self.start <= pos && pos <= self.start + self.len ==> r
                == ContainsResult::True,
            self.seqid@ == chrom@ && pos > self.start + self.len ==> r == ContainsResult::After,
    {
        if !crate::text::str_equal(&self.seqid, chrom.as_str()) {
            return ContainsResult::WrongChrom;
        }
        if pos < self.start {
            return ContainsResult::Before;
        }
        if pos - self.start <= self.len {
            ContainsResult::True
        } else {
            ContainsResult::After
        }
    }
}

// ---------------------------------------------------------------------------
// Whole-file tallies
// ---------------------------------------------------------------------------
/// The count of `-` characters in a line.
pub open spec fn spec_dash_count(l: Seq<char>) -> int
    decreases l.len(),
{
    if l.len() == 0 {
        0
    } else {
        spec_dash_count(l.take(l.len() - 1)) + (if l[l.len() - 1] == '-' {
            1int
        } else {
            0int
        })
    }
}

/// A tally clamped to what a counter can hold.
pub open spec fn clamp64(i: int) -> int {
    if i > u64::MAX {
        u64::MAX as int
    } else {
        i
    }
}

/// The gap count over the reference lines: walking the lines, an `a`
/// line opens a block, and the first `s` line of each block contributes
/// the count of `-` characters of its whole line.
pub open spec fn spec_count_ref_gaps(lines: Seq<Seq<char>>, i: int, seqcount: int, acc: int) -> int
    decreases lines.len() - i,
{
    if i >= lines.len() {
        acc
    } else {
        let l = lines[i];
        if l.len() == 0 || l[0] == '#' {
            spec_count_ref_gaps(lines, i + 1, seqcount, acc)
        } else if l[0] == 'a' {
            spec_count_ref_gaps(lines, i + 1, 0, acc)
        } else if l[0] == 's' {
            if seqcount + 1 == 1 {
                spec_count_ref_gaps(lines, i + 1, seqcount + 1, acc + spec_dash_count(l))
            } else {
                spec_count_ref_gaps(lines, i + 1, seqcount + 1, acc)
            }
        } else {
            spec_count_ref_gaps(lines, i + 1, seqcount, acc)
        }
    }
}

/// Counts the dashes of one line.
fn dash_count(cs: &Vec<char>) -> (r: usize)
    ensures
        r == spec_dash_count(cs@),
        r <= cs@.len(),
{
    let mut r: usize = 0;
    let mut i: usize = 0;
    while i < cs.len()
        invariant
            i <= cs.len(),
            r <= i,
            r == spec_dash_count(cs@.take(i as int)),
        decreases cs.len() - i,
    {
        proof {
            assert(cs@.take(i + 1 as int).take(i as int) =~= cs@.take(i as int));
        }
        if cs[i] == '-' {
            r += 1;
        }
        i += 1;
    }
    proof {
        assert(cs@.take(cs@.len() as int) =~= cs@);
    }
    r
}

/// A line's dash count is never negative.
proof fn lemma_dash_nonneg(l: Seq<char>)
    ensures
        spec_dash_count(l) >= 0,
    decreases l.len(),
{
    if l.len() > 0 {
        lemma_dash_nonneg(l.take(l.len() - 1));
    }
}

/// The tally splits off its accumulator.
proof fn lemma_crg_shift(lv: Seq<Seq<char>>, i: int, sc: int, a: int)
    ensures
        spec_count_ref_gaps(lv, i, sc, a) == a + spec_count_ref_gaps(lv, i, sc, 0),
    decreases lv.len() - i,
{
    if i < lv.len() {
        let l = lv[i];
        if l.len() == 0 || l[0] == '#' {
            lemma_crg_shift(lv, i + 1, sc, a);
        } else if l[0] == 'a' {
            lemma_crg_shift(lv, i + 1, 0, a);
        } else if l[0] == 's' {
            if sc + 1 == 1 {
                lemma_crg_shift(lv, i + 1, sc + 1, a + spec_dash_count(l));
                lemma_crg_shift(lv, i + 1, sc + 1, spec_dash_count(l));
            } else {
                lemma_crg_shift(lv, i + 1, sc + 1, a);
            }
        } else {
            lemma_crg_shift(lv, i + 1, sc, a);
        }
    }
}

/// The tally with a zero accumulator is never negative.
proof fn lemma_crg_nonneg(lv: Seq<Seq<char>>, i: int, sc: int)
    ensures
        spec_count_ref_gaps(lv, i, sc, 0) >= 0,
    decreases lv.len() - i,
{
    if i < lv.len() {
        let l = lv[i];
        if l.len() == 0 || l[0] == '#' {
            lemma_crg_nonneg(lv, i + 1, sc);
        } else if l[0] == 'a' {
            lemma_crg_nonneg(lv, i + 1, 0);
        } else if l[0] == 's' {
            if sc + 1 == 1 {
                lemma_crg_nonneg(lv, i + 1, sc + 1);
                lemma_crg_shift(lv, i + 1, sc + 1, spec_dash_count(l));
                lemma_dash_nonneg(l);
            } else {
                lemma_crg_nonneg(lv, i + 1, sc + 1);
            }
        } else {
            lemma_crg_nonneg(lv, i + 1, sc);
        }
    }
}

/// Counts the `-` characters over the first sequence line of every
/// block, the whole line included; the count clamps at the top of its
/// range.
#[verifier::loop_isolation(false)]
pub fn count_ref_gaps(lines: &Vec<String>) -> (r: u64)
    ensures
        r == clamp64(spec_count_ref_gaps(lines.deep_view(), 0, 0, 0)),
{
    let ghost lv = lines.deep_view();
    let mut count: u64 = 0;
    let mut seqcount: u64 = 0;
    let mut i: usize = 0;
    proof {
        assert(lv.len() == lines@.len());
        lemma_crg_shift(lv, 0, 0, 0);
    }
    while i < lines.len()
        invariant
            i <= lines.len(),
            seqcount as int <= i,
            clamp64(spec_count_ref_gaps(lv, 0, 0, 0)) == clamp64(
                count + spec_count_ref_gaps(lv, i as int, seqcount as int, 0),
            ),
        decreases lines.len() - i,
    {
        proof {
            assert(lv[i as int] == lines@[i as int]@);
        }
        let cs = chars_of(lines[i].as_str());
        if cs.len() == 0 || cs[0] == '#' {
        } else if cs[0] == 'a' {
            seqcount = 0;
        } else if cs[0] == 's' {
            seqcount = seqcount + 1;
            if seqcount == 1 {
                let d = dash_count(&cs);
                proof {
                    lemma_crg_shift(lv, i + 1 as int, seqcount as int, spec_dash_count(cs@));
                    lemma_crg_nonneg(lv, i + 1 as int, seqcount as int);
                    lemma_dash_nonneg(cs@);
                }
                if count > u64::MAX - (d as u64) {
                    count = u64::MAX;
                } else {
                    count = count + (d as u64);
                }
            }
        }
        i += 1;
    }
    count
}

// ---------------------------------------------------------------------------
// Block-level checks
// ---------------------------------------------------------------------------
/// Whether a block repeats its reference species: walking the sequence
/// lines, the first names the reference and any later line of the same
/// species is a duplicate.
pub open spec fn spec_has_dupe_ref(
    ls: Seq<MafLineModel>,
    i: int,
    refname: Option<Seq<char>>,
) -> bool
    decreases ls.len() - i,
{
    if i >= ls.len() {
        false
    } else {
        match ls[i] {
            MafLineModel::SequenceLine(sp, _, _, _, _, _, _) => match refname {
                None => spec_has_dupe_ref(ls, i + 1, Some(sp)),
                Some(r) => if sp == r {
                    true
                } else {
                    spec_has_dupe_ref(ls, i + 1, Some(r))
                },
            },
            _ => spec_has_dupe_ref(ls, i + 1, refname),
        }
    }
}

/// Whether a block's reference species appears on a later sequence
/// line too.
pub fn block_has_dupe_ref(block: &Vec<MafLine>) -> (r: bool)
    ensures
        r == spec_has_dupe_ref(maf_lines_view(block@), 0, None::<Seq<char>>),
{
    let ghost bv = maf_lines_view(block@);
    let mut refname: Option<&String> = None;
    let ghost refm: Option<Seq<char>> = None;
    let mut i: usize = 0;
    proof {
        assert(bv.len() == block@.len());
    }
    while i < block.len()
        invariant
            i <= block@.len(),
            bv == maf_lines_view(block@),
            bv.len() == block@.len(),
            match refname {
                Some(s) => refm == Some(s@),
                None => refm is None,
            },
            spec_has_dupe_ref(bv, 0, None::<Seq<char>>) == spec_has_dupe_ref(
                bv,
                i as int,
                refm,
            ),
        decreases block@.len() - i,
    {
        proof {
            assert(bv[i as int] == block@[i as int]@);
        }
        match &block[i] {
            MafLine::SequenceLine(sp, _, _, _, _, _, _) => {
                match refname {
                    None => {
                        refname = Some(sp);
                        proof {
                            refm = Some(sp@);
                        }
                    },
                    Some(r) => {
                        if crate::text::str_equal(r, sp.as_str()) {
                            return true;
                        }
                    },
                }
            },
            _ => {},
        }
        i += 1;
    }
    false
}

/// Whether a sequence line covers the queried position for the queried
/// species: the species matches, the sequence name equals its part
/// before any colon, and the position lies within the line's interval.
pub open spec fn spec_matches_interval(m: MafLineModel, species: Seq<char>, position: u64) -> bool {
    match m {
        MafLineModel::SequenceLine(sp, id, start, length, _, _, _) => {
            let k = crate::text::find_char(id, ':');
            &&& sp == species
            &&& id.take(k) == id
            &&& start <= position
            &&& position <= start + length
        },
        _ => false,
    }
}

/// Interval test for the extraction utility.
pub fn seqline_matches_interval(line: &MafLine, species: &String, position: u64) -> (r: bool)
    ensures
        r == spec_matches_interval(line@, species@, position),
{
    match line {
        MafLine::SequenceLine(sp, id, start, length, _, _, _) => {
            let idc = chars_of(id.as_str());
            let chr = match crate::text::split_once_chars(&idc, ':') {
                Some(p) => p.0,
                None => idc,
            };
            proof {
                crate::text::lemma_find_char(id@, ':');
                assert(chr@ == id@.take(crate::text::find_char(id@, ':')));
            }
            let chr_is_id = crate::text::chars_equal(&chr, &chars_of(id.as_str()));
            crate::text::str_equal(sp, species.as_str()) && chr_is_id && *start <= position
                && position - *start <= *length
        },
        _ => false,
    }
}

// ---------------------------------------------------------------------------
// Grouping at block markers
// ---------------------------------------------------------------------------
/// Model of an `AlignmentBlock` under construction.
#[verifier::ext_equal]
pub struct BlockModel {
    pub species: Seq<Seq<char>>,
    pub lines: Seq<MafLineModel>,
    pub seqid: Seq<char>,
    pub start: u64,
    pub len: u64,
}

impl View for AlignmentBlock {
    type V = BlockModel;

    open spec fn view(&self) -> BlockModel {
        BlockModel {
            species: self.species.deep_view(),
            lines: maf_lines_view(self.lines@),
            seqid: self.seqid@,
            start: self.start,
            len: self.len,
        }
    }
}

/// An empty block.
pub open spec fn empty_block() -> BlockModel {
    BlockModel {
        species: Seq::<Seq<char>>::empty(),
        lines: Seq::<MafLineModel>::empty(),
        seqid: Seq::<char>::empty(),
        start: 0,
        len: 0,
    }
}

/// One sequence line folded into a block: its species is recorded, the
/// first line fixes the block's reference interval, and the line joins
/// the block.
pub open spec fn block_with_line(acc: BlockModel, m: MafLineModel) -> BlockModel {
    match m {
        MafLineModel::SequenceLine(sp, id, st, ln, _, _, _) => BlockModel {
            species: acc.species.push(sp),
            lines: acc.lines.push(m),
            seqid: if acc.lines.len() == 0 {
                id
            } else {
                acc.seqid
            },
            start: if acc.lines.len() == 0 {
                st
            } else {
                acc.start
            },
            len: if acc.lines.len() == 0 {
                ln
            } else {
                acc.len
            },
        },
        _ => acc,
    }
}

/// What the marker-driven reader yields next, scanning from line `i`
/// with the block gathered so far: a block of sequence lines closed by
/// the next marker line, or nothing at the end of the input (a final
/// block without a closing marker is dropped, as the line-by-line
/// reader drops it), or the first malformed line's error.
pub open spec fn spec_next_ablock(
    lines: Seq<Seq<char>>,
    i: int,
    acc: BlockModel,
    is_alignment: bool,
) -> Result<Option<(BlockModel, int)>, MafError>
    decreases lines.len() - i,
{
    if i >= lines.len() {
        Ok(None)
    } else {
        match spec_parse_maf_line(lines[i]) {
            None => Err(MafError::BadLine),
            Some(m) => match m {
                MafLineModel::AlignmentBlockLine(_) => {
                    if acc.lines.len() > 0 && is_alignment {
                        Ok(Some((acc, i + 1)))
                    } else {
                        spec_next_ablock(lines, i + 1, acc, is_alignment)
                    }
                },
                MafLineModel::SequenceLine(..) => spec_next_ablock(
                    lines,
                    i + 1,
                    block_with_line(acc, m),
                    true,
                ),
                _ => spec_next_ablock(lines, i + 1, acc, is_alignment),
            },
        }
    }
}

/// A reader yielding accumulated blocks, split at the marker lines.
pub struct AlignmentBlockIterator {
    parser: MafParser,
}

impl MafParser {
    /// Turns the reader into one that accumulates whole blocks.
    pub fn alignment_blocks(self) -> (r: AlignmentBlockIterator)
        requires
            self.wf(),
        ensures
            r.wf(),
            r.lines_model() == self.lines_model(),
            r.pos_model() == self.pos_model(),
    {
        AlignmentBlockIterator { parser: self }
    }
}

impl AlignmentBlockIterator {
    /// The cursor stays within the lines.
    pub closed spec fn wf(&self) -> bool {
        self.parser.wf()
    }

    /// The file's lines.
    pub closed spec fn lines_model(&self) -> Seq<Seq<char>> {
        self.parser.lines_model()
    }

    /// The cursor.
    pub closed spec fn pos_model(&self) -> int {
        self.parser.pos_model()
    }

    /// The next accumulated block, or nothing at the end of the input,
    /// or the first malformed line's error.
    #[verifier::loop_isolation(false)]
    pub fn next(&mut self) -> (r: Option<Result<AlignmentBlock, MafError>>)
        requires
            old(self).wf(),
        ensures
            final(self).wf(),
            final(self).lines_model() == old(self).lines_model(),
            match spec_next_ablock(
                old(self).lines_model(),
                old(self).pos_model(),
                empty_block(),
                false,
            ) {
                Err(e) => r matches Some(res) && res matches Err(e2) && e2 == e,
                Ok(opt) => match opt {
                    None => r is None,
                    Some(b) => r matches Some(res) && res matches Ok(block) && block@ == b.0
                        && final(self).pos_model() == b.1,
                },
            },
    {
        let ghost lv = self.parser.lines_model();
        let ghost p0 = self.parser.pos_model();
        let mut block = AlignmentBlock {
            species: Vec::new(),
            lines: Vec::new(),
            seqid: String::new(),
            start: 0,
            len: 0,
        };
        let mut is_alignment = false;
        proof {
            assert(block@ =~~= empty_block());
        }
        while self.parser.pos < self.parser.lines.len()
            invariant
                self.parser.pos <= self.parser.lines@.len(),
                self.parser.lines.deep_view() == lv,
                spec_next_ablock(lv, p0, empty_block(), false) == spec_next_ablock(
                    lv,
                    self.parser.pos as int,
                    block@,
                    is_alignment,
                ),
            decreases self.parser.lines@.len() - self.parser.pos,
        {
            proof {
                assert(lv[self.parser.pos as int] == self.parser.lines@[self.parser.pos as int]@);
            }
            let line = &self.parser.lines[self.parser.pos];
            let parsed = parse_maf_line(line.as_str());
            self.parser.pos = self.parser.pos + 1;
            match parsed {
                None => {
                    return Some(Err(MafError::BadLine));
                },
                Some(x) => {
                    match &x {
                        MafLine::AlignmentBlockLine(_) => {
                            if block.lines.len() > 0 && is_alignment {
                                return Some(Ok(block));
                            }
                        },
                        MafLine::SequenceLine(sp, id, st, ln, _, _, _) => {
                            let ghost before = block@;
                            crate::text::push_string(&mut block.species, sp.clone());
                            if block.lines.len() == 0 {
                                block.seqid = id.clone();
                                block.start = *st;
                                block.len = *ln;
                            }
                            let ghost lines_before = block.lines@;
                            let xl = x.duplicate();
                            block.lines.push(xl);
                            is_alignment = true;
                            proof {
                                assert(maf_lines_view(block.lines@) =~= maf_lines_view(
                                    lines_before,
                                ).push(block.lines@[lines_before.len() as int]@));
                                assert(block@ =~~= block_with_line(before, x@));
                            }
                        },
                        _ => {},
                    }
                },
            }
        }
        None
    }
}

/// The duplicate-reference tally over a whole file: per block (opened
/// by an `a` line), the first `s` line names the reference, and every
/// later `s` line carrying the same name counts once and contributes
/// its text field's character count.  A sequence line missing its name
/// field or (when counted) its text field spoils the tally.
pub open spec fn spec_count_dupe_refs(
    lines: Seq<Seq<char>>,
    i: int,
    seqcount: int,
    refname: Seq<char>,
    count: int,
    seqlen: int,
) -> Option<(int, int)>
    decreases lines.len() - i,
{
    if i >= lines.len() {
        Some((count, seqlen))
    } else {
        let l = lines[i];
        if l.len() == 0 || l[0] == '#' {
            spec_count_dupe_refs(lines, i + 1, seqcount, refname, count, seqlen)
        } else if l[0] == 'a' {
            spec_count_dupe_refs(lines, i + 1, 0, refname, count, seqlen)
        } else if l[0] == 's' {
            let toks = spec_tokenize(l);
            if toks.len() < 2 {
                None
            } else if seqcount + 1 == 1 {
                spec_count_dupe_refs(lines, i + 1, seqcount + 1, toks[1], count, seqlen)
            } else if toks[1] == refname {
                if toks.len() < 7 {
                    None
                } else {
                    spec_count_dupe_refs(
                        lines,
                        i + 1,
                        seqcount + 1,
                        refname,
                        count + 1,
                        seqlen + toks[6].len(),
                    )
                }
            } else {
                spec_count_dupe_refs(lines, i + 1, seqcount + 1, refname, count, seqlen)
            }
        } else {
            spec_count_dupe_refs(lines, i + 1, seqcount, refname, count, seqlen)
        }
    }
}

/// The duplicate tally splits off its accumulators.
proof fn lemma_cdr_shift(
    lines: Seq<Seq<char>>,
    i: int,
    sc: int,
    rn: Seq<char>,
    count: int,
    seqlen: int,
)
    ensures
        spec_count_dupe_refs(lines, i, sc, rn, count, seqlen) == (
        match spec_count_dupe_refs(lines, i, sc, rn, 0, 0) {
            None => None::<(int, int)>,
            Some(p) => Some((count + p.0, seqlen + p.1)),
        }),
    decreases lines.len() - i,
{
    if i < lines.len() {
        let l = lines[i];
        if l.len() == 0 || l[0] == '#' {
            lemma_cdr_shift(lines, i + 1, sc, rn, count, seqlen);
            lemma_cdr_shift(lines, i + 1, sc, rn, 0, 0);
        } else if l[0] == 'a' {
            lemma_cdr_shift(lines, i + 1, 0, rn, count, seqlen);
            lemma_cdr_shift(lines, i + 1, 0, rn, 0, 0);
        } else if l[0] == 's' {
            let toks = spec_tokenize(l);
            if toks.len() >= 2 {
                if sc + 1 == 1 {
                    lemma_cdr_shift(lines, i + 1, sc + 1, toks[1], count, seqlen);
                    lemma_cdr_shift(lines, i + 1, sc + 1, toks[1], 0, 0);
                } else if toks[1] == rn {
                    if toks.len() >= 7 {
                        lemma_cdr_shift(
                            lines,
                            i + 1,
                            sc + 1,
                            rn,
                            count + 1,
                            seqlen + toks[6].len(),
                        );
                        lemma_cdr_shift(lines, i + 1, sc + 1, rn, 1, toks[6].len() as int);
                        lemma_cdr_shift(lines, i + 1, sc + 1, rn, 0, 0);
                    }
                } else {
                    lemma_cdr_shift(lines, i + 1, sc + 1, rn, count, seqlen);
                    lemma_cdr_shift(lines, i + 1, sc + 1, rn, 0, 0);
                }
            }
        } else {
            lemma_cdr_shift(lines, i + 1, sc, rn, count, seqlen);
            lemma_cdr_shift(lines, i + 1, sc, rn, 0, 0);
        }
    }
}

/// Counts the sequence lines repeating their block's reference name,
/// with the total character count of their text fields, the latter
/// clamped at the top of its range; nothing when a sequence line lacks
/// a field the tally reads.
#[verifier::loop_isolation(false)]
pub fn count_dupe_refs(lines: &Vec<String>) -> (r: Option<(u64, u64)>)
    ensures
        match spec_count_dupe_refs(lines.deep_view(), 0, 0, Seq::<char>::empty(), 0, 0) {
            None => r is None,
            Some(p) => r matches Some(q) && q.0 == p.0 && q.1 == clamp64(p.1),
        },
{
    let ghost lv = lines.deep_view();
    let mut count: u64 = 0;
    let mut seqlen: u64 = 0;
    let ghost mut s_exact: int = 0;
    let mut seqcount: u64 = 0;
    let mut reference = String::new();
    let mut i: usize = 0;
    proof {
        assert(lv.len() == lines@.len());
    }
    while i < lines.len()
        invariant
            i <= lines.len(),
            seqcount as int <= i,
            count as int <= i,
            s_exact >= 0,
            seqlen as int == clamp64(s_exact),
            spec_count_dupe_refs(lv, 0, 0, Seq::<char>::empty(), 0, 0) == (
            match spec_count_dupe_refs(
                lv,
                i as int,
                seqcount as int,
                reference@,
                0,
                0,
            ) {
                None => None::<(int, int)>,
                Some(p) => Some((count + p.0, s_exact + p.1)),
            }),
        decreases lines.len() - i,
    {
        proof {
            assert(lv[i as int] == lines@[i as int]@);
        }
        let cs = chars_of(lines[i].as_str());
        if cs.len() == 0 || cs[0] == '#' {
        } else if cs[0] == 'a' {
            seqcount = 0;
        } else if cs[0] == 's' {
            let toks = tokenize_chars(&cs);
            let ghost tv = toks.deep_view();
            proof {
                assert(tv.len() == toks@.len());
            }
            if toks.len() < 2 {
                return None;
            }
            proof {
                assert(tv[1] == toks@[1]@);
            }
            seqcount = seqcount + 1;
            if seqcount == 1 {
                reference = string_from_chars(&toks[1]);
            } else {
                let refc = chars_of(reference.as_str());
                if crate::text::chars_equal(&toks[1], &refc) {
                    if toks.len() < 7 {
                        return None;
                    }
                    proof {
                        assert(tv[6] == toks@[6]@);
                        lemma_cdr_shift(
                            lv,
                            i + 1 as int,
                            seqcount as int,
                            reference@,
                            1,
                            tv[6].len() as int,
                        );
                    }
                    count = count + 1;
                    let d = toks[6].len();
                    proof {
                        s_exact = s_exact + d as int;
                    }
                    if seqlen > u64::MAX - (d as u64) {
                        seqlen = u64::MAX;
                    } else {
                        seqlen = seqlen + (d as u64);
                    }
                }
            }
        }
        i += 1;
    }
    proof {
        assert(clamp64(s_exact) == seqlen as int);
    }
    Some((count, seqlen))
}

} // verus!
