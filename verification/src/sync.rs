//! The variant/alignment synchronizer: a merge-join of a
//! coordinate-sorted variant stream against the lazily decoded
//! alignment-column stream, producing one ancestral-allele decision per
//! variant.  A chromosome change re-seeks the column stream through the
//! block index; on one chromosome the stream position is kept between
//! variants.
use vstd::prelude::*;
use vstd::string::StringExecFns;

use crate::fold::TafAlignmentColumn;
use crate::fold::AlignedColModel;
use crate::fold::coords_view;
use crate::fold::spec_allele_row;
use crate::fold::species_view;
use crate::fold::spec_ref_matches_pos;
use crate::gz::gunzip_of;
use crate::tai::TaiIndex;
use crate::tai::spec_get_seek_info;
use crate::tai::spec_tai_from_lines;
use crate::taf_stream::TafAlignmentIterator;
use crate::taf_stream::TafError;
use crate::taf_stream::TafParser;
use crate::taf_stream::is_taf_header_line;
use crate::taf::ColumnModel;
use crate::taf::DecodeError;
use crate::taf::spec_parse_column;
use crate::text::spec_lines;
use crate::text::spec_trim;
use crate::text::spec_is_digit;
use crate::text::spec_parse_u64;
use crate::text::spec_split_char;
use crate::text::spec_u64_digits;
use crate::text::split_char_chars;
use crate::text::chars_of;
use crate::text::parse_u64_chars;
use crate::text::str_equal;
use crate::text::u64_to_string;
use crate::vcf::Record;

verus! {

// ---------------------------------------------------------------------------
// Ancestral-allele selection
// ---------------------------------------------------------------------------
/// An ASCII letter folded to upper case; everything else unchanged.
pub open spec fn spec_ascii_upper(c: char) -> char {
    if c == 'a' {
        'A'
    } else if c == 'b' {
        'B'
    } else if c == 'c' {
        'C'
    } else if c == 'd' {
        'D'
    } else if c == 'e' {
        'E'
    } else if c == 'f' {
        'F'
    } else if c == 'g' {
        'G'
    } else if c == 'h' {
        'H'
    } else if c == 'i' {
        'I'
    } else if c == 'j' {
        'J'
    } else if c == 'k' {
        'K'
    } else if c == 'l' {
        'L'
    } else if c == 'm' {
        'M'
    } else if c == 'n' {
        'N'
    } else if c == 'o' {
        'O'
    } else if c == 'p' {
        'P'
    } else if c == 'q' {
        'Q'
    } else if c == 'r' {
        'R'
    } else if c == 's' {
        'S'
    } else if c == 't' {
        'T'
    } else if c == 'u' {
        'U'
    } else if c == 'v' {
        'V'
    } else if c == 'w' {
        'W'
    } else if c == 'x' {
        'X'
    } else if c == 'y' {
        'Y'
    } else if c == 'z' {
        'Z'
    } else {
        c
    }
}

/// Executable form of `spec_ascii_upper`.
pub fn ascii_upper(c: char) -> (r: char)
    ensures
        r == spec_ascii_upper(c),
{
    if c == 'a' {
        'A'
    } else if c == 'b' {
        'B'
    } else if c == 'c' {
        'C'
    } else if c == 'd' {
        'D'
    } else if c == 'e' {
        'E'
    } else if c == 'f' {
        'F'
    } else if c == 'g' {
        'G'
    } else if c == 'h' {
        'H'
    } else if c == 'i' {
        'I'
    } else if c == 'j' {
        'J'
    } else if c == 'k' {
        'K'
    } else if c == 'l' {
        'L'
    } else if c == 'm' {
        'M'
    } else if c == 'n' {
        'N'
    } else if c == 'o' {
        'O'
    } else if c == 'p' {
        'P'
    } else if c == 'q' {
        'Q'
    } else if c == 'r' {
        'R'
    } else if c == 's' {
        'S'
    } else if c == 't' {
        'T'
    } else if c == 'u' {
        'U'
    } else if c == 'v' {
        'V'
    } else if c == 'w' {
        'W'
    } else if c == 'x' {
        'X'
    } else if c == 'y' {
        'Y'
    } else if c == 'z' {
        'Z'
    } else {
        c
    }
}

/// What one candidate ancestor offers at a column: its allele, folded
/// to upper case, provided the species has a row with an allele and the
/// folded allele is a real base (not a gap, unknown or mask symbol)
/// equal to the variant's reference or alternate base.
pub open spec fn spec_candidate(
    m: AlignedColModel,
    s: Seq<char>,
    ref0: char,
    alt0: char,
) -> Option<char> {
    match spec_allele_row(m.species_map, m.column.alleles.len() as int, s, 0) {
        Some(rix) => {
            let u = spec_ascii_upper(m.column.alleles[rix]);
            if u != '-' && u != 'N' && u != '*' && (u == ref0 || u == alt0) {
                Some(u)
            } else {
                None
            }
        },
        None => None,
    }
}

/// The ancestral allele the column yields: the first candidate (in the
/// caller's priority order, starting at `i`) whose allele qualifies.
pub open spec fn spec_select_ancestral(
    m: AlignedColModel,
    ancestors: Seq<Seq<char>>,
    ref0: char,
    alt0: char,
    i: int,
) -> Option<char>
    decreases ancestors.len() - i,
{
    if i >= ancestors.len() {
        None
    } else {
        match spec_candidate(m, ancestors[i], ref0, alt0) {
            Some(u) => Some(u),
            None => spec_select_ancestral(m, ancestors, ref0, alt0, i + 1),
        }
    }
}

/// Law: ancestor priority.  When candidate `k` qualifies and no earlier
/// candidate does, the selection is exactly candidate `k`'s allele;
/// later candidates never take part and there is no vote.
pub proof fn lemma_ancestor_priority(
    m: AlignedColModel,
    ancestors: Seq<Seq<char>>,
    ref0: char,
    alt0: char,
    k: int,
)
    requires
        0 <= k < ancestors.len(),
        spec_candidate(m, ancestors[k], ref0, alt0) is Some,
        forall|j: int| 0 <= j < k ==> spec_candidate(m, #[trigger] ancestors[j], ref0, alt0)
            is None,
    ensures
        spec_select_ancestral(m, ancestors, ref0, alt0, 0) == spec_candidate(
            m,
            ancestors[k],
            ref0,
            alt0,
        ),
    decreases k,
{
    if k > 0 {
        assert forall|j: int| 0 <= j < k - 1 implies spec_candidate(
            m,
            #[trigger] ancestors.skip(1)[j],
            ref0,
            alt0,
        ) is None by {
            assert(ancestors.skip(1)[j] == ancestors[j + 1]);
        }
        lemma_select_shift(m, ancestors, ref0, alt0, k);
    }
}

/// Selection from the head steps over a non-qualifying first candidate.
proof fn lemma_select_shift(
    m: AlignedColModel,
    ancestors: Seq<Seq<char>>,
    ref0: char,
    alt0: char,
    k: int,
)
    requires
        0 < k < ancestors.len(),
        spec_candidate(m, ancestors[k], ref0, alt0) is Some,
        forall|j: int| 0 <= j < k ==> spec_candidate(m, #[trigger] ancestors[j], ref0, alt0)
            is None,
    ensures
        spec_select_ancestral(m, ancestors, ref0, alt0, 0) == spec_candidate(
            m,
            ancestors[k],
            ref0,
            alt0,
        ),
    decreases ancestors.len() - 0,
{
    lemma_select_from(m, ancestors, ref0, alt0, 0, k);
}

/// Selection from `i` reaches the first qualifying candidate `k`.
proof fn lemma_select_from(
    m: AlignedColModel,
    ancestors: Seq<Seq<char>>,
    ref0: char,
    alt0: char,
    i: int,
    k: int,
)
    requires
        0 <= i <= k < ancestors.len(),
        spec_candidate(m, ancestors[k], ref0, alt0) is Some,
        forall|j: int| 0 <= j < k ==> spec_candidate(m, #[trigger] ancestors[j], ref0, alt0)
            is None,
    ensures
        spec_select_ancestral(m, ancestors, ref0, alt0, i) == spec_candidate(
            m,
            ancestors[k],
            ref0,
            alt0,
        ),
    decreases k - i,
{
    if i < k {
        lemma_select_from(m, ancestors, ref0, alt0, i + 1, k);
    }
}

/// Picks the ancestral allele at a resolved column: candidates are
/// tried strictly in the given order and the first qualifying allele
/// wins.
pub fn select_ancestral(
    col: &TafAlignmentColumn,
    ancestors: &Vec<String>,
    ref0: char,
    alt0: char,
) -> (r: Option<char>)
    ensures
        r == spec_select_ancestral(col@, ancestors.deep_view(), ref0, alt0, 0),
{
    let ghost av = ancestors.deep_view();
    let mut i: usize = 0;
    proof {
        assert(av.len() == ancestors@.len());
    }
    while i < ancestors.len()
        invariant
            i <= ancestors.len(),
            av == ancestors.deep_view(),
            av.len() == ancestors@.len(),
            spec_select_ancestral(col@, av, ref0, alt0, 0) == spec_select_ancestral(
                col@,
                av,
                ref0,
                alt0,
                i as int,
            ),
        decreases ancestors.len() - i,
    {
        proof {
            assert(av[i as int] == ancestors@[i as int]@);
        }
        match col.allele_for_species(ancestors[i].as_str()) {
            Some(p) => {
                let u = ascii_upper(p.1);
                if u != '-' && u != 'N' && u != '*' && (u == ref0 || u == alt0) {
                    return Some(u);
                }
            },
            None => {},
        }
        i += 1;
    }
    None
}

// ---------------------------------------------------------------------------
// The synchronizer
// ---------------------------------------------------------------------------
/// End-of-run counters: variants whose call matched the reference base,
/// variants whose call was the alternate base, and variants with no
/// ancestral call.
#[derive(Debug, Clone, Copy, PartialEq, Eq, Structural)]
pub struct RunSummary {
    pub matches: u64,
    pub mismatches: u64,
    pub missing: u64,
}

/// One produced annotation: a chromosome, a 1-based position, and the
/// ancestral allele assigned there.
#[derive(Debug)]
pub struct AnnotationRow {
    pub chrom: String,
    pub pos: u64,
    pub allele: char,
}

/// What became of one variant record.
#[derive(Debug)]
pub enum RecordOutcome {
    /// An ancestral allele was assigned; the flag says whether it
    /// equals the variant's reference base.
    Annotated(AnnotationRow, bool),
    /// The column was resolved or the stream ended, but no candidate
    /// ancestor qualified or the position was never reached.
    MissingCall,
    /// The variant was skipped without a call: its chromosome has no
    /// alignment, the stream could not be reopened, or no column was
    /// available.
    Skipped,
}

/// Model of an `AnnotationRow`.
#[verifier::ext_equal]
pub struct RowModel {
    pub chrom: Seq<char>,
    pub pos: u64,
    pub allele: char,
}

impl View for AnnotationRow {
    type V = RowModel;

    open spec fn view(&self) -> RowModel {
        RowModel { chrom: self.chrom@, pos: self.pos, allele: self.allele }
    }
}

/// The models of a list of annotation rows.
pub open spec fn rows_view(v: Seq<AnnotationRow>) -> Seq<RowModel> {
    v.map_values(|r: AnnotationRow| r@)
}

/// Model of a `RecordOutcome`.
#[verifier::ext_equal]
pub enum OutcomeModel {
    Annotated(RowModel, bool),
    MissingCall,
    Skipped,
}

impl View for RecordOutcome {
    type V = OutcomeModel;

    open spec fn view(&self) -> OutcomeModel {
        match self {
            RecordOutcome::Annotated(row, is_match) => OutcomeModel::Annotated(row@, *is_match),
            RecordOutcome::MissingCall => OutcomeModel::MissingCall,
            RecordOutcome::Skipped => OutcomeModel::Skipped,
        }
    }
}

/// The rows of the annotated outcomes, in order.
pub open spec fn annotated_rows(outs: Seq<OutcomeModel>) -> Seq<RowModel>
    decreases outs.len(),
{
    if outs.len() == 0 {
        seq![]
    } else {
        match outs[0] {
            OutcomeModel::Annotated(rm, _) => seq![rm] + annotated_rows(outs.skip(1)),
            _ => annotated_rows(outs.skip(1)),
        }
    }
}

/// One more outcome extends the annotated rows by its row, if any.
pub proof fn lemma_annotated_rows_snoc(outs: Seq<OutcomeModel>, o: OutcomeModel)
    ensures
        annotated_rows(outs.push(o)) == annotated_rows(outs) + (match o {
            OutcomeModel::Annotated(rm, _) => seq![rm],
            _ => Seq::<RowModel>::empty(),
        }),
    decreases outs.len(),
{
    if outs.len() == 0 {
        assert(outs.push(o)[0] == o);
        assert(outs.push(o).skip(1) =~= Seq::<OutcomeModel>::empty());
        assert(annotated_rows(Seq::<OutcomeModel>::empty()) =~= Seq::<RowModel>::empty());
        assert(outs =~= Seq::<OutcomeModel>::empty());
        match o {
            OutcomeModel::Annotated(rm, _) => {
                assert(annotated_rows(outs.push(o)) =~= annotated_rows(outs) + seq![rm]);
            },
            _ => {
                assert(annotated_rows(outs.push(o)) =~= annotated_rows(outs)
                    + Seq::<RowModel>::empty());
            },
        }
    } else {
        assert(outs.push(o)[0] == outs[0]);
        assert(outs.push(o).skip(1) =~= outs.skip(1).push(o));
        lemma_annotated_rows_snoc(outs.skip(1), o);
        match outs[0] {
            OutcomeModel::Annotated(rm, _) => {
                assert(annotated_rows(outs.push(o)) =~= annotated_rows(outs) + (match o {
                    OutcomeModel::Annotated(rm2, _) => seq![rm2],
                    _ => Seq::<RowModel>::empty(),
                }));
            },
            _ => {},
        }
    }
}

/// A counter advanced by one, held at the top of its range.
pub open spec fn sat_inc64(i: int) -> int {
    if i < u64::MAX {
        i + 1
    } else {
        i
    }
}

/// The 0-based form of a 1-based position.
pub open spec fn spec_pos0(pos: u64) -> u64 {
    if pos >= 1 {
        (pos - 1) as u64
    } else {
        0
    }
}

/// Whether the stream can be reopened at compressed offset `off`.
pub open spec fn spec_reopen_ok(data: Seq<u8>, off: u64) -> bool {
    off <= usize::MAX && off <= data.len() && gunzip_of(data.skip(off as int)) is Some
}

/// Model of a synchronizer's state between records.
#[verifier::ext_equal]
pub struct SyncModel {
    pub chrom: Seq<char>,
    pub column: Option<AlignedColModel>,
    pub reseeks: int,
    pub matches: int,
    pub mismatches: int,
    pub missing: int,
    pub index: Seq<(Seq<char>, Seq<(u64, u64)>)>,
    pub data: Seq<u8>,
    pub pos: int,
    pub idx: int,
    pub lines: Seq<Seq<char>>,
    pub run_length: bool,
    pub col_line: Option<(Seq<Seq<char>>, int)>,
}

/// The lookahead column is real: its content parses from the recorded
/// line of a block, and that block is the line split of a decompressed
/// member of the source.
pub open spec fn spec_sync_tied(m: SyncModel) -> bool {
    match m.column {
        Some(cm) => m.col_line matches Some(src) && {
            &&& 1 <= src.1 <= src.0.len()
            &&& spec_parse_column(spec_trim(src.0[src.1 - 1]), m.run_length) == Ok::<
                ColumnModel,
                DecodeError,
            >(cm.column)
            &&& (exists|p: int|
                0 <= p && ((#[trigger] gunzip_of(m.data.skip(p))) matches Some(tp) && src.0
                    == spec_lines(tp.0)))
        },
        None => true,
    }
}

/// The grounds on which forward scanning stops short of a variant's
/// position: the reference row has already passed it, the source is
/// exhausted, the block or the column at the cursor fails to decode,
/// the column's fold would leave the coordinate range, or the pulled
/// column no longer carries the variant's chromosome.
pub open spec fn spec_scan_blocked(m: SyncModel, rec: crate::vcf::RecordModel) -> bool {
    ||| (m.column matches Some(cm) && cm.coords.len() > 0 && (cm.coords[0] matches Some(c0)
        && (rec.pos == 0 || c0.offset > rec.pos - 1)))
    ||| (m.pos == m.data.len() && m.idx == m.lines.len())
    ||| (gunzip_of(m.data.skip(m.pos)) is None && m.pos < m.data.len())
    ||| (1 <= m.idx <= m.lines.len() && spec_parse_column(
        spec_trim(m.lines[m.idx - 1]),
        m.run_length,
    ) is Err)
    ||| (1 <= m.idx <= m.lines.len() && (spec_parse_column(
        spec_trim(m.lines[m.idx - 1]),
        m.run_length,
    ) matches Ok(c2) && (m.column matches Some(cm) && !crate::fold::spec_fold_ok(
        crate::taf_stream::grow_coords(cm.coords, c2.alleles.len() as int),
        c2.coordinates,
    ))))
    ||| (m.column matches Some(cm) && crate::fold::spec_chrom_row(cm.coords, rec.chrom, 0)
        is None)
}

/// How one variant record moves the synchronizer from `pre` to `post`
/// with outcome `out`: the record's chromosome becomes the one last
/// seen; a chromosome change consults the index once and re-seeks
/// exactly when a checkpoint exists and its block decodes, skipping
/// the record with an emptied lookahead otherwise; a record on the
/// chromosome last seen never re-seeks, and when the lookahead column
/// is already resolved at its position the outcome follows from
/// candidate selection alone; each outcome moves exactly its own
/// counter, and an annotated outcome carries the record's chromosome
/// and position and the selected allele of a column resolved at that
/// position.
pub open spec fn spec_process_step(
    pre: SyncModel,
    rec: crate::vcf::RecordModel,
    ancestors: Seq<Seq<char>>,
    post: SyncModel,
    out: OutcomeModel,
) -> bool {
    &&& post.chrom == rec.chrom
    &&& post.data == pre.data
    &&& post.index == pre.index
    &&& (rec.chrom == pre.chrom ==> post.reseeks == pre.reseeks)
    &&& (rec.chrom != pre.chrom ==> post.reseeks == (match spec_get_seek_info(
        pre.index,
        rec.chrom,
        spec_pos0(rec.pos),
    ) {
        Some(t) => if spec_reopen_ok(pre.data, t.1) {
            sat_inc64(pre.reseeks)
        } else {
            pre.reseeks
        },
        None => pre.reseeks,
    }))
    &&& (rec.chrom != pre.chrom && spec_get_seek_info(
        pre.index,
        rec.chrom,
        spec_pos0(rec.pos),
    ) is None ==> out == OutcomeModel::Skipped && post.column is None)
    &&& (rec.chrom != pre.chrom ==> (spec_get_seek_info(
        pre.index,
        rec.chrom,
        spec_pos0(rec.pos),
    ) matches Some(t) ==> (!spec_reopen_ok(pre.data, t.1) ==> out == OutcomeModel::Skipped
        && post.column is None)))
    &&& (rec.chrom == pre.chrom ==> (pre.column matches Some(cm) ==> (spec_ref_matches_pos(
        cm.coords,
        0,
        rec.pos,
    ) ==> post.column == pre.column)))
    &&& (rec.chrom == pre.chrom && pre.column is None ==> out == OutcomeModel::Skipped
        && post.column is None)
    &&& post.run_length == pre.run_length
    &&& spec_sync_tied(post)
    &&& (post.column is None ==> out == OutcomeModel::Skipped)
    &&& (post.column matches Some(cm) ==> (spec_ref_matches_pos(cm.coords, 0, rec.pos) ==> (
    match spec_select_ancestral(cm, ancestors, rec.ref_[0], rec.alt[0], 0) {
        Some(a) => out matches OutcomeModel::Annotated(rm, _) && rm.allele == a,
        None => out == OutcomeModel::MissingCall,
    })))
    &&& (post.column matches Some(cm) ==> (!spec_ref_matches_pos(cm.coords, 0, rec.pos)
        ==> out == OutcomeModel::MissingCall))
    &&& (out == OutcomeModel::MissingCall ==> ((post.column matches Some(cm)
        && spec_ref_matches_pos(cm.coords, 0, rec.pos) && spec_select_ancestral(
        cm,
        ancestors,
        rec.ref_[0],
        rec.alt[0],
        0,
    ) is None) || spec_scan_blocked(post, rec)))
    &&& match out {
        OutcomeModel::Annotated(rm, is_match) => {
            &&& rm.chrom == rec.chrom
            &&& rm.pos == rec.pos
            &&& (post.column matches Some(cm) && spec_ref_matches_pos(cm.coords, 0, rec.pos)
                && spec_select_ancestral(cm, ancestors, rec.ref_[0], rec.alt[0], 0) == Some(
                rm.allele,
            ))
            &&& is_match == (rm.allele == rec.ref_[0])
            &&& (is_match ==> post.matches == sat_inc64(pre.matches) && post.mismatches
                == pre.mismatches)
            &&& (!is_match ==> post.mismatches == sat_inc64(pre.mismatches) && post.matches
                == pre.matches)
            &&& post.missing == pre.missing
        },
        OutcomeModel::MissingCall => post.missing == sat_inc64(pre.missing) && post.matches
            == pre.matches && post.mismatches == pre.mismatches,
        OutcomeModel::Skipped => post.missing == pre.missing && post.matches == pre.matches
            && post.mismatches == pre.mismatches,
    }
}

/// Law: chromosome switches alone re-seek.  Along any chain of record
/// steps, a record on the chromosome last seen leaves the reseek count
/// unchanged, and any record moves it by at most one — so a variant
/// stream running chr1, chr1, chr2 re-seeks once for chr1 and once at
/// the switch, never between the two chr1 records.
pub proof fn lemma_reseek_discipline(
    pre: SyncModel,
    rec: crate::vcf::RecordModel,
    ancestors: Seq<Seq<char>>,
    post: SyncModel,
    out: OutcomeModel,
)
    requires
        spec_process_step(pre, rec, ancestors, post, out),
    ensures
        rec.chrom == pre.chrom ==> post.reseeks == pre.reseeks,
        pre.reseeks <= post.reseeks <= sat_inc64(pre.reseeks),
{
}

/// The merge-join driver: owns the column stream and the block index,
/// tracks the chromosome last seen, keeps one lookahead column, and
/// counts matches, mismatches and missing calls.
pub struct Synchronizer {
    stream: TafAlignmentIterator,
    index: TaiIndex,
    current_chrom: String,
    column: Option<TafAlignmentColumn>,
    col_src: Ghost<Option<(Seq<Seq<char>>, int)>>,
    reseek_count: u64,
    matches: u64,
    mismatches: u64,
    missing: u64,
}

impl Synchronizer {
    /// The stream stays well formed, the lookahead column's tables are
    /// the stream's running tables, and its content parses from a
    /// recorded line of a decompressed member of the source.
    pub closed spec fn wf(&self) -> bool {
        &&& self.stream.wf()
        &&& (match self.column {
            Some(c) => {
                &&& coords_view(c.coords@) == self.stream.coords_model()
                &&& species_view(c.species_map@) == self.stream.species_model()
            },
            None => true,
        })
        &&& spec_sync_tied(self.model())
    }

    /// The chromosome of the last record seen.
    pub closed spec fn chrom_model(&self) -> Seq<char> {
        self.current_chrom@
    }

    /// The block index.
    pub closed spec fn index_model(&self) -> Seq<(Seq<char>, Seq<(u64, u64)>)> {
        self.index@
    }

    /// The compressed source bytes.
    pub closed spec fn data_model(&self) -> Seq<u8> {
        self.stream.data_model()
    }

    /// The lookahead column.
    pub closed spec fn column_model(&self) -> Option<AlignedColModel> {
        match self.column {
            Some(c) => Some(c@),
            None => None,
        }
    }

    /// How many times the stream was successfully reopened.
    pub closed spec fn reseeks_model(&self) -> int {
        self.reseek_count as int
    }

    /// The match counter.
    pub closed spec fn matches_model(&self) -> int {
        self.matches as int
    }

    /// The mismatch counter.
    pub closed spec fn mismatches_model(&self) -> int {
        self.mismatches as int
    }

    /// The missing-call counter.
    pub closed spec fn missing_model(&self) -> int {
        self.missing as int
    }

    /// The whole state between records.
    pub closed spec fn model(&self) -> SyncModel {
        SyncModel {
            chrom: self.chrom_model(),
            column: self.column_model(),
            reseeks: self.reseeks_model(),
            matches: self.matches_model(),
            mismatches: self.mismatches_model(),
            missing: self.missing_model(),
            index: self.index_model(),
            data: self.data_model(),
            pos: self.stream.pos_model(),
            idx: self.stream.idx_model(),
            lines: self.stream.lines_model(),
            run_length: self.stream.run_length_model(),
            col_line: self.col_src@,
        }
    }

    /// A fresh synchronizer: no chromosome seen, no column, all
    /// counters zero.
    pub fn new(stream: TafAlignmentIterator, index: TaiIndex) -> (r: Synchronizer)
        requires
            stream.wf(),
        ensures
            r.wf(),
            r.chrom_model() == Seq::<char>::empty(),
            r.column_model() is None,
            r.reseeks_model() == 0,
            r.matches_model() == 0,
            r.mismatches_model() == 0,
            r.missing_model() == 0,
            r.index_model() == index@,
            r.data_model() == stream.data_model(),
    {
        Synchronizer {
            stream,
            index,
            current_chrom: String::new(),
            column: None,
            col_src: Ghost(None),
            reseek_count: 0,
            matches: 0,
            mismatches: 0,
            missing: 0,
        }
    }

    /// The run's counters.
    pub fn summary(&self) -> (r: RunSummary)
        ensures
            r.matches == self.matches_model(),
            r.mismatches == self.mismatches_model(),
            r.missing == self.missing_model(),
    {
        RunSummary { matches: self.matches, mismatches: self.mismatches, missing: self.missing }
    }

    /// How many times the stream was reopened.
    pub fn reseeks(&self) -> (r: u64)
        ensures
            r == self.reseeks_model(),
    {
        self.reseek_count
    }

    /// Handles one variant record.  A chromosome change consults the
    /// block index once and reopens the stream at the checkpoint for
    /// the variant's block; records on the chromosome last seen never
    /// re-seek.  The stream then advances until the reference row (row
    /// 0) reaches the variant's position, stopping early at a decode
    /// error, at the end of the stream, or at a column that no longer
    /// carries the variant's chromosome.  At a resolved column the
    /// candidate ancestors decide the call in priority order.
    pub fn process_record(&mut self, rec: &Record, ancestors: &Vec<String>) -> (r: RecordOutcome)
        requires
            old(self).wf(),
            rec.ref_@.len() > 0,
            rec.alt@.len() > 0,
        ensures
            final(self).wf(),
            spec_process_step(
                old(self).model(),
                rec@,
                ancestors.deep_view(),
                final(self).model(),
                r@,
            ),
    {
        let ref0 = rec.ref_.as_str().get_char(0);
        let alt0 = rec.alt.as_str().get_char(0);
        if !str_equal(&self.current_chrom, rec.chrom.as_str()) {
            self.current_chrom = rec.chrom.clone();
            let pos0 = if rec.pos >= 1 {
                rec.pos - 1
            } else {
                0
            };
            match self.index.get_seek_info(rec.chrom.as_str(), pos0) {
                None => {
                    self.column = None;
                    self.col_src = Ghost(None);
                    return RecordOutcome::Skipped;
                },
                Some(t) => {
                    let off = t.1;
                    let ok = if off <= usize::MAX as u64 {
                        self.stream.reopen_at(off as usize, 0)
                    } else {
                        false
                    };
                    if !ok {
                        self.column = None;
                        self.col_src = Ghost(None);
                        return RecordOutcome::Skipped;
                    }
                    if self.reseek_count < u64::MAX {
                        self.reseek_count = self.reseek_count + 1;
                    }
                    match self.stream.next() {
                        Some(Ok(c)) => {
                            self.column = Some(c);
                            self.col_src = Ghost(
                                Some((self.stream.lines_model(), self.stream.idx_model())),
                            );
                            proof {
                                self.stream.lemma_block_tied();
                            }
                        },
                        Some(Err(_)) => {
                            self.column = None;
                            self.col_src = Ghost(None);
                        },
                        None => {
                            self.column = None;
                            self.col_src = Ghost(None);
                        },
                    }
                },
            }
        }
        if self.column.is_none() {
            return RecordOutcome::Skipped;
        }
        let ghost pre_col = self.column_model();
        let ghost chrom_s = self.current_chrom@;
        let ghost rs_s = self.reseek_count;
        let ghost ma_s = self.matches;
        let ghost mi_s = self.mismatches;
        let ghost mg_s = self.missing;
        let ghost dat_s = self.stream.data_model();
        let ghost rl_s = self.stream.run_length_model();
        let ghost idx_s = self.index@;
        loop
            invariant_except_break
                self.wf(),
                self.column is Some,
                pre_col matches Some(cm) ==> (spec_ref_matches_pos(cm.coords, 0, rec.pos)
                    ==> self.column_model() == pre_col),
                self.current_chrom@ == chrom_s,
                self.reseek_count == rs_s,
                self.matches == ma_s,
                self.mismatches == mi_s,
                self.missing == mg_s,
                self.stream.data_model() == dat_s,
                self.stream.run_length_model() == rl_s,
                self.index@ == idx_s,
            ensures
                self.wf(),
                self.column is Some,
                pre_col matches Some(cm) ==> (spec_ref_matches_pos(cm.coords, 0, rec.pos)
                    ==> self.column_model() == pre_col),
                self.current_chrom@ == chrom_s,
                self.reseek_count == rs_s,
                self.matches == ma_s,
                self.mismatches == mi_s,
                self.missing == mg_s,
                self.stream.data_model() == dat_s,
                self.stream.run_length_model() == rl_s,
                self.index@ == idx_s,
                (match self.column_model() {
                    Some(cm) => spec_ref_matches_pos(cm.coords, 0, rec.pos),
                    None => false,
                }) || spec_scan_blocked(self.model(), rec@),
            decreases
                    self.stream.data_model().len() - self.stream.pos_model(),
                    self.stream.lines_len_model() - self.stream.idx_model(),
        {
            proof {
                self.stream.lemma_wf_bounds();
            }
            let resolved = match &self.column {
                Some(c) => c.ref_matches_pos(0, rec.pos),
                None => false,
            };
            if resolved {
                break ;
            }
            let passed = match &self.column {
                Some(c) => match c.ref_offset(0) {
                    Some(o) => rec.pos == 0 || o > rec.pos - 1,
                    None => false,
                },
                None => false,
            };
            if passed {
                break ;
            }
            match self.stream.next() {
                None => {
                    break ;
                },
                Some(Err(_)) => {
                    break ;
                },
                Some(Ok(c)) => {
                    let on_chrom = c.has_chromosome(rec.chrom.as_str());
                    self.column = Some(c);
                    self.col_src = Ghost(
                        Some((self.stream.lines_model(), self.stream.idx_model())),
                    );
                    proof {
                        self.stream.lemma_wf_bounds();
                        self.stream.lemma_block_tied();
                    }
                    if !on_chrom {
                        break ;
                    }
                },
            }
        }
        let resolved = match &self.column {
            Some(c) => c.ref_matches_pos(0, rec.pos),
            None => false,
        };
        if resolved {
            let picked = match &self.column {
                Some(c) => select_ancestral(c, ancestors, ref0, alt0),
                None => None,
            };
            match picked {
                Some(a) => {
                    let is_match = a == ref0;
                    if is_match {
                        if self.matches < u64::MAX {
                            self.matches = self.matches + 1;
                        }
                    } else {
                        if self.mismatches < u64::MAX {
                            self.mismatches = self.mismatches + 1;
                        }
                    }
                    let row = AnnotationRow { chrom: rec.chrom.clone(), pos: rec.pos, allele: a };
                    RecordOutcome::Annotated(row, is_match)
                },
                None => {
                    if self.missing < u64::MAX {
                        self.missing = self.missing + 1;
                    }
                    RecordOutcome::MissingCall
                },
            }
        } else {
            if self.missing < u64::MAX {
                self.missing = self.missing + 1;
            }
            RecordOutcome::MissingCall
        }
    }
}

// ---------------------------------------------------------------------------
// The whole run
// ---------------------------------------------------------------------------
/// Why a run could not start.
#[derive(Debug)]
pub enum AnnotateError {
    /// The ancestor list is not comma-separated numbers.
    BadAncestors,
    /// A record carries an empty reference or alternate allele.
    EmptyAllele,
    /// The alignment source could not be opened.
    Taf(TafError),
}

/// True when every character of the ancestor list is a digit or a
/// comma.
pub open spec fn spec_ancestors_ok(s: Seq<char>) -> bool {
    forall|j: int| 0 <= j < s.len() ==> (spec_is_digit(#[trigger] s[j]) || s[j] == ',')
}

/// The numbers of a comma-separated list, or nothing when any segment
/// fails to read.
pub open spec fn spec_parse_nums(segs: Seq<Seq<char>>) -> Option<Seq<u64>>
    decreases segs.len(),
{
    if segs.len() == 0 {
        Some(seq![])
    } else {
        match spec_parse_u64(segs[0]) {
            None => None,
            Some(v) => match spec_parse_nums(segs.skip(1)) {
                None => None,
                Some(rest) => Some(seq![v] + rest),
            },
        }
    }
}

/// A usable ancestor list: digits and commas only, every segment a
/// number.
pub open spec fn spec_valid_ancestors(s: Seq<char>) -> bool {
    spec_ancestors_ok(s) && spec_parse_nums(spec_split_char(s, ',')) is Some
}

/// Reads a comma-separated list of ancestor numbers.
pub fn parse_ancestor_list(s: &str) -> (r: Option<Vec<u64>>)
    ensures
        match r {
            Some(v) => spec_valid_ancestors(s@) && spec_parse_nums(spec_split_char(s@, ','))
                == Some(v@),
            None => !spec_valid_ancestors(s@),
        },
{
    let cs = chars_of(s);
    let mut j: usize = 0;
    while j < cs.len()
        invariant
            j <= cs.len(),
            cs@ == s@,
            forall|k: int|
                0 <= k < j ==> (spec_is_digit(#[trigger] cs@[k]) || cs@[k] == ','),
        decreases cs.len() - j,
    {
        let c = cs[j];
        if !(crate::text::is_digit(c) || c == ',') {
            proof {
                assert(!(spec_is_digit(cs@[j as int]) || cs@[j as int] == ','));
                assert(!spec_ancestors_ok(cs@));
            }
            return None;
        }
        j += 1;
    }
    let segs = split_char_chars(&cs, ',');
    let ghost sv = segs.deep_view();
    let mut nums: Vec<u64> = Vec::new();
    let mut i: usize = 0;
    proof {
        assert(sv.len() == segs@.len());
        assert(sv.skip(0) =~= sv);
    }
    while i < segs.len()
        invariant
            i <= segs.len(),
            sv == segs.deep_view(),
            sv.len() == segs@.len(),
            sv == spec_split_char(s@, ','),
            spec_ancestors_ok(s@),
            spec_parse_nums(sv) == match spec_parse_nums(sv.skip(i as int)) {
                Some(rest) => Some(nums@ + rest),
                None => None::<Seq<u64>>,
            },
        decreases segs.len() - i,
    {
        proof {
            assert(sv.skip(i as int)[0] == sv[i as int]);
            assert(sv[i as int] == segs@[i as int]@);
            assert(sv.skip(i as int).skip(1) =~= sv.skip(i + 1 as int));
        }
        match parse_u64_chars(&segs[i]) {
            None => {
                proof {
                    assert(spec_parse_nums(sv.skip(i as int)) is None);
                    assert(spec_parse_nums(sv) is None);
                }
                return None;
            },
            Some(v) => {
                let ghost prev = nums@;
                nums.push(v);
                proof {
                    match spec_parse_nums(sv.skip(i + 1 as int)) {
                        Some(rest) => {
                            assert(prev + (seq![v] + rest) =~= (prev.push(v)) + rest);
                        },
                        None => {},
                    }
                }
            },
        }
        i += 1;
    }
    proof {
        assert(sv.skip(sv.len() as int) =~= Seq::<Seq<char>>::empty());
        assert(nums@ + Seq::<u64>::empty() =~= nums@);
    }
    Some(nums)
}

/// The species label of one candidate ancestor number.
pub open spec fn spec_ancestor_label(n: u64) -> Seq<char> {
    "Anc"@ + spec_u64_digits(n as int)
}

/// The species labels of the candidate ancestor numbers, in order.
pub fn ancestor_labels(nums: &Vec<u64>) -> (r: Vec<String>)
    ensures
        r.deep_view() == nums@.map_values(|n: u64| spec_ancestor_label(n)),
{
    let mut out: Vec<String> = Vec::new();
    let mut i: usize = 0;
    while i < nums.len()
        invariant
            i <= nums.len(),
            out.deep_view() =~~= nums@.map_values(|n: u64| spec_ancestor_label(n)).take(i as int),
        decreases nums.len() - i,
    {
        let mut label = String::from_str("Anc");
        let digits = u64_to_string(nums[i]);
        label.append(digits.as_str());
        crate::text::push_string(&mut out, label);
        proof {
            assert(out.deep_view() =~~= nums@.map_values(|n: u64| spec_ancestor_label(n)).take(
                i + 1 as int,
            ));
        }
        i += 1;
    }
    proof {
        let mapped = nums@.map_values(|n: u64| spec_ancestor_label(n));
        assert(mapped.take(mapped.len() as int) =~= mapped);
    }
    out
}

/// The models of a list of record outcomes.
pub open spec fn outcomes_view(v: Seq<RecordOutcome>) -> Seq<OutcomeModel> {
    v.map_values(|o: RecordOutcome| o@)
}

impl AnnotationRow {
    /// A copy of this row, equal at the model level.
    pub fn duplicate(&self) -> (r: AnnotationRow)
        ensures
            r@ == self@,
    {
        AnnotationRow { chrom: self.chrom.clone(), pos: self.pos, allele: self.allele }
    }
}

/// The candidate species labels a run resolves from its ancestor list.
pub open spec fn spec_run_labels(s: Seq<char>) -> Seq<Seq<char>> {
    match spec_parse_nums(spec_split_char(s, ',')) {
        Some(ns) => ns.map_values(|n: u64| spec_ancestor_label(n)),
        None => Seq::empty(),
    }
}

/// Everything one run produces: the annotation rows, in input order,
/// and the end-of-run counters.
#[derive(Debug)]
pub struct AnnotateOutput {
    pub rows: Vec<AnnotationRow>,
    pub summary: RunSummary,
    pub reseeks: u64,
    pub outcomes: Vec<RecordOutcome>,
}

/// One whole run: builds the block index from the side file's lines,
/// opens the alignment stream over the compressed bytes, resolves the
/// candidate ancestor labels, and walks every variant record through
/// the synchronizer, one `spec_process_step` per record in order.  The
/// outcomes come back one per record; the rows are exactly the
/// annotated outcomes, in record order; the summary and reseek count
/// are the final state's counters.  A run with a usable ancestor list,
/// records with non-empty alleles, and a source whose first block
/// decodes to a header line is owed a result.
pub fn annotate_ancestral_allele(
    taf_data: Vec<u8>,
    tai_lines: &Vec<String>,
    records: &Vec<Record>,
    ancestors: &String,
) -> (r: Result<AnnotateOutput, AnnotateError>)
    ensures
        (r matches Err(AnnotateError::BadAncestors)) <==> !spec_valid_ancestors(ancestors@),
        r matches Err(e) ==> (e matches AnnotateError::Taf(te) ==> match te {
            TafError::BadBlock => gunzip_of(taf_data@) is None,
            TafError::MissingHeader => gunzip_of(taf_data@) is Some,
        }),
        r matches Err(e) ==> (e is EmptyAllele ==> (exists|k: int|
            0 <= k < records@.len() && ((#[trigger] records@[k])@.ref_.len() == 0
                || records@[k]@.alt.len() == 0))),
        (spec_valid_ancestors(ancestors@) && (forall|k: int|
            0 <= k < records@.len() ==> (#[trigger] records@[k])@.ref_.len() > 0
                && records@[k]@.alt.len() > 0) && (gunzip_of(taf_data@) matches Some(tp)
            && spec_lines(tp.0).len() > 0 && is_taf_header_line(spec_lines(tp.0)[0])))
            ==> r is Ok,
        r matches Ok(out) ==> out.summary.matches + out.summary.mismatches == out.rows@.len(),
        r matches Ok(out) ==> out.outcomes@.len() == records@.len(),
        r matches Ok(out) ==> rows_view(out.rows@) == annotated_rows(
            outcomes_view(out.outcomes@),
        ),
        r matches Ok(out) ==> (exists|chain: Seq<SyncModel>|
            {
                &&& chain.len() == records@.len() + 1
                &&& chain[0].chrom == Seq::<char>::empty()
                &&& chain[0].column is None
                &&& chain[0].reseeks == 0
                &&& chain[0].matches == 0
                &&& chain[0].mismatches == 0
                &&& chain[0].missing == 0
                &&& chain[0].index == spec_tai_from_lines(
                    tai_lines.deep_view(),
                    Seq::<char>::empty(),
                    Seq::empty(),
                )
                &&& chain[0].data == taf_data@
                &&& (forall|k: int|
                    0 <= k < records@.len() ==> #[trigger] spec_process_step(
                        chain[k],
                        records@[k]@,
                        spec_run_labels(ancestors@),
                        chain[k + 1],
                        outcomes_view(out.outcomes@)[k],
                    ))
                &&& out.summary.matches == chain[records@.len() as int].matches
                &&& out.summary.mismatches == chain[records@.len() as int].mismatches
                &&& out.summary.missing == chain[records@.len() as int].missing
                &&& out.reseeks == chain[records@.len() as int].reseeks
            }),
{
    let ghost data0 = taf_data@;
    let anc_str = ancestors.as_str();
    proof {
        assert(anc_str@ == ancestors@);
    }
    let nums = match parse_ancestor_list(anc_str) {
        Some(v) => v,
        None => {
            return Err(AnnotateError::BadAncestors);
        },
    };
    proof {
        assert(spec_valid_ancestors(ancestors@));
    }
    let labels = ancestor_labels(&nums);
    proof {
        assert(labels.deep_view() == spec_run_labels(ancestors@));
    }
    let index = TaiIndex::from_lines(tai_lines);
    let parser = match TafParser::from_bytes(taf_data) {
        Ok(p) => p,
        Err(e) => {
            return Err(AnnotateError::Taf(e));
        },
    };
    let stream = TafAlignmentIterator::new(parser);
    let mut sync = Synchronizer::new(stream, index);
    let ghost init = sync.model();
    proof {
        assert(init.chrom == Seq::<char>::empty());
        assert(init.column is None);
        assert(init.reseeks == 0 && init.matches == 0 && init.mismatches == 0 && init.missing
            == 0);
        assert(init.index == spec_tai_from_lines(
            tai_lines.deep_view(),
            Seq::<char>::empty(),
            Seq::empty(),
        ));
        assert(init.data == data0);
    }
    let mut rows: Vec<AnnotationRow> = Vec::new();
    let mut outcomes: Vec<RecordOutcome> = Vec::new();
    let ghost mut chain: Seq<SyncModel> = seq![init];
    let mut i: usize = 0;
    proof {
        assert(outcomes_view(outcomes@) =~= Seq::<OutcomeModel>::empty());
        assert(rows_view(rows@) =~= annotated_rows(outcomes_view(outcomes@)));
    }
    while i < records.len()
        invariant
            i <= records.len(),
            sync.wf(),
            spec_valid_ancestors(ancestors@),
            labels.deep_view() == spec_run_labels(ancestors@),
            chain.len() == i + 1,
            outcomes@.len() == i,
            chain[0] == init,
            chain[chain.len() - 1] == sync.model(),
            forall|k: int|
                0 <= k < i ==> #[trigger] spec_process_step(
                    chain[k],
                    records@[k]@,
                    spec_run_labels(ancestors@),
                    chain[k + 1],
                    outcomes_view(outcomes@)[k],
                ),
            rows_view(rows@) == annotated_rows(outcomes_view(outcomes@)),
            sync.matches_model() + sync.mismatches_model() == rows@.len(),
            sync.matches_model() <= i,
            sync.mismatches_model() <= i,
            forall|k: int|
                0 <= k < i ==> (#[trigger] records@[k])@.ref_.len() > 0 && records@[k]@.alt.len()
                    > 0,
        decreases records.len() - i,
    {
        let rec = &records[i];
        if rec.ref_.as_str().unicode_len() == 0 || rec.alt.as_str().unicode_len() == 0 {
            proof {
                assert(records@[i as int]@.ref_.len() == 0 || records@[i as int]@.alt.len()
                    == 0);
            }
            return Err(AnnotateError::EmptyAllele);
        }
        let ghost pre = sync.model();
        let outcome = sync.process_record(rec, &labels);
        let ghost o = outcome@;
        let ghost post = sync.model();
        proof {
            assert(spec_process_step(pre, records@[i as int]@, spec_run_labels(ancestors@), post, o));
            assert(usize::MAX <= u64::MAX);
        }
        match &outcome {
            RecordOutcome::Annotated(row, _) => {
                let ghost prev_rows = rows@;
                let copy = row.duplicate();
                rows.push(copy);
                proof {
                    assert(rows_view(rows@) =~= rows_view(prev_rows).push(rows@[
                        prev_rows.len() as int]@));
                }
            },
            RecordOutcome::MissingCall => {},
            RecordOutcome::Skipped => {},
        }
        let ghost prev_outs = outcomes@;
        outcomes.push(outcome);
        proof {
            assert(outcomes_view(outcomes@) =~= outcomes_view(prev_outs).push(o));
            lemma_annotated_rows_snoc(outcomes_view(prev_outs), o);
            assert(rows_view(rows@) =~= annotated_rows(outcomes_view(outcomes@)));
            let ghost chain2 = chain.push(post);
            assert forall|k: int| 0 <= k < i + 1 implies #[trigger] spec_process_step(
                chain2[k],
                records@[k]@,
                spec_run_labels(ancestors@),
                chain2[k + 1],
                outcomes_view(outcomes@)[k],
            ) by {
                if k < i as int {
                    assert(chain2[k] == chain[k]);
                    assert(chain2[k + 1] == chain[k + 1]);
                    assert(outcomes_view(outcomes@)[k] == outcomes_view(prev_outs)[k]);
                } else {
                    assert(chain2[k] == pre);
                    assert(chain2[k + 1] == post);
                    assert(outcomes_view(outcomes@)[k] == o);
                }
            }
            chain = chain2;
        }
        i += 1;
    }
    let summary = sync.summary();
    let reseeks = sync.reseeks();
    let out = AnnotateOutput { rows, summary, reseeks, outcomes };
    proof {
        assert(chain[records@.len() as int] == sync.model());
    }
    Ok(out)
}

} // verus!

