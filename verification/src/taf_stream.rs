//! The seekable alignment-column stream: a compressed block-structured
//! source held in memory, decoded block by block, yielding one parsed
//! column per relevant line and folding each column's coordinate
//! operations into the running tables.
use vstd::prelude::*;

use crate::fold::TafAlignmentColumn;
use crate::fold::clone_coords;
use crate::fold::clone_species;
use crate::fold::coords_view;
use crate::fold::fold_column_ops;
use crate::fold::spec_fold_coords;
use crate::fold::spec_fold_species;
use crate::fold::species_view;
use crate::gz::gunzip_member;
use crate::gz::gunzip_of;
use crate::taf::ColumnModel;
use crate::taf::CoordModel;
use crate::taf::Coordinate;
use crate::taf::DecodeError;
use crate::taf::TafColumn;
use crate::taf::TafHeader;
use crate::taf::pairs_view;
use crate::taf::parse_taf_column;
use crate::taf::parse_taf_header;
use crate::taf::spec_parse_column;
use crate::taf::spec_parse_taf_header;
use crate::taf::spec_tag_value;
use crate::taf::tag_value;
use crate::text::chars_of;
use crate::text::spec_lines;
use crate::text::spec_trim;
use crate::text::split_lines;
use crate::text::str_equal;
use crate::text::string_from_chars;
use crate::text::trim_chars;

verus! {

/// Why the stream could not be opened.
#[derive(Debug, Clone, Copy, PartialEq, Eq, Structural)]
pub enum TafError {
    /// The first block is not a well-formed compressed block.
    BadBlock,
    /// The first block does not begin with the format's header line.
    MissingHeader,
}

/// True for the format's own header line.
pub open spec fn is_taf_header_line(l: Seq<char>) -> bool {
    l.len() >= 4 && l.subrange(0, 4) == seq!['#', 't', 'a', 'f']
}

/// True for a line the column reader yields after trimming: non-empty,
/// and not a comment other than the header line.
pub open spec fn is_column_line(l: Seq<char>) -> bool {
    l.len() > 0 && (l[0] == '#' ==> is_taf_header_line(l))
}

/// True for a line the column reader passes over: blank after
/// trimming, or a comment other than the header line.
pub open spec fn is_skippable_line(l: Seq<char>) -> bool {
    let t = spec_trim(l);
    t.len() == 0 || (t[0] == '#' && !is_taf_header_line(t))
}

/// The current block is real: its lines are the line split of one
/// decompressed member of the source, and the source cursor sits just
/// past that member.
pub open spec fn stream_block_tied(data: Seq<u8>, pos: int, lines: Seq<Seq<char>>) -> bool {
    exists|p: int|
        0 <= p <= pos && ((#[trigger] gunzip_of(data.skip(p))) matches Some(tp) && lines
            == spec_lines(tp.0) && pos == p + tp.1)
}

/// The next column index: one more, held at the top of the range.
pub open spec fn sat_inc(i: int) -> int {
    if i < usize::MAX {
        i + 1
    } else {
        i
    }
}

/// The block-structured column source: the whole compressed file, a
/// cursor into it, and the current block's decoded lines.
pub struct TafParser {
    pub header: TafHeader,
    pub run_length_encode: bool,
    data: Vec<u8>,
    file_pos: usize,
    block_lines: Vec<String>,
    line_idx: usize,
}

impl TafParser {
    /// The cursors stay within their ranges and the current block is
    /// one decompressed member of the source.
    pub closed spec fn wf(&self) -> bool {
        &&& self.file_pos <= self.data@.len()
        &&& self.line_idx <= self.block_lines@.len()
        &&& stream_block_tied(self.data@, self.file_pos as int, self.block_lines.deep_view())
    }

    /// A well-formed source's block comes from its bytes.
    pub proof fn lemma_block_tied(&self)
        requires
            self.wf(),
        ensures
            stream_block_tied(self.data_model(), self.pos_model(), self.lines_model()),
            0 <= self.pos_model() <= self.data_model().len(),
            0 <= self.idx_model() <= self.lines_model().len(),
    {
    }

    /// The compressed source bytes.
    pub closed spec fn data_model(&self) -> Seq<u8> {
        self.data@
    }

    /// The cursor into the compressed source.
    pub closed spec fn pos_model(&self) -> int {
        self.file_pos as int
    }

    /// The current block's lines.
    pub closed spec fn lines_model(&self) -> Seq<Seq<char>> {
        self.block_lines.deep_view()
    }

    /// The cursor into the current block's lines.
    pub closed spec fn idx_model(&self) -> int {
        self.line_idx as int
    }

    /// The header's tags.
    pub closed spec fn header_model(&self) -> Seq<(Seq<char>, Seq<char>)> {
        pairs_view(self.header.tags@)
    }

    /// Whether the allele field is run-length encoded.
    pub closed spec fn run_length_model(&self) -> bool {
        self.run_length_encode
    }

    /// Opens the stream over a whole compressed file: decodes the first
    /// block, validates the leading header line, and reads the
    /// run-length flag from its tags.
    pub fn from_bytes(data: Vec<u8>) -> (r: Result<TafParser, TafError>)
        ensures
            match r {
                Ok(p) => {
                    &&& p.wf()
                    &&& p.data_model() == data@
                    &&& gunzip_of(data@) matches Some(tp) && {
                        &&& p.pos_model() == tp.1
                        &&& p.lines_model() == spec_lines(tp.0)
                        &&& p.idx_model() == 1
                        &&& spec_lines(tp.0).len() > 0
                        &&& is_taf_header_line(spec_lines(tp.0)[0])
                        &&& p.header_model() == spec_parse_taf_header(
                            spec_lines(tp.0)[0],
                        )
                        &&& p.run_length_model() == (spec_tag_value(
                            spec_parse_taf_header(spec_lines(tp.0)[0]),
                            "run_length_encode_bases"@,
                        ) == Some("1"@))
                    }
                },
                Err(e) => match e {
                    TafError::BadBlock => gunzip_of(data@) is None,
                    TafError::MissingHeader => gunzip_of(data@) matches Some(tp) && !(spec_lines(
                        tp.0,
                    ).len() > 0 && is_taf_header_line(spec_lines(tp.0)[0])),
                },
            },
    {
        proof {
            assert(data@.skip(0) =~= data@);
        }
        match gunzip_member(&data, 0) {
            None => Err(TafError::BadBlock),
            Some((text, used)) => {
                let block_lines = split_lines(text.as_str());
                if block_lines.len() == 0 {
                    return Err(TafError::MissingHeader);
                }
                proof {
                    assert(block_lines.deep_view()[0] == block_lines@[0]@);
                }
                let fc = chars_of(block_lines[0].as_str());
                let header_ok = fc.len() >= 4 && fc[0] == '#' && fc[1] == 't' && fc[2] == 'a'
                    && fc[3] == 'f';
                proof {
                    if header_ok {
                        assert(fc@.subrange(0, 4) =~= seq!['#', 't', 'a', 'f']);
                    } else {
                        if fc@.len() >= 4 && fc@.subrange(0, 4) == seq!['#', 't', 'a', 'f'] {
                            assert(fc@[0] == fc@.subrange(0, 4)[0]);
                            assert(fc@[1] == fc@.subrange(0, 4)[1]);
                            assert(fc@[2] == fc@.subrange(0, 4)[2]);
                            assert(fc@[3] == fc@.subrange(0, 4)[3]);
                        }
                    }
                }
                if !header_ok {
                    return Err(TafError::MissingHeader);
                }
                let header = parse_taf_header(block_lines[0].as_str());
                let run_length_encode = match tag_value(&header.tags, "run_length_encode_bases") {
                    Some(v) => str_equal(&v, "1"),
                    None => false,
                };
                Ok(
                    TafParser {
                        header,
                        run_length_encode,
                        data,
                        file_pos: used,
                        block_lines,
                        line_idx: 1,
                    },
                )
            },
        }
    }

    /// Repositions the stream at a compressed offset: decodes the block
    /// there and skips the given number of lines within it.  Returns
    /// false, leaving the cursors alone, when the offset is out of
    /// range or no block decodes there.
    pub fn seek_to(&mut self, pos: usize, block_offset: usize) -> (r: bool)
        requires
            old(self).wf(),
        ensures
            final(self).wf(),
            final(self).data_model() == old(self).data_model(),
            final(self).run_length_model() == old(self).run_length_model(),
            final(self).header_model() == old(self).header_model(),
            r == (pos <= old(self).data_model().len() && gunzip_of(
                old(self).data_model().skip(pos as int),
            ) is Some),
            r ==> pos <= old(self).data_model().len() && (gunzip_of(
                old(self).data_model().skip(pos as int),
            ) matches Some(tp) && {
                &&& final(self).pos_model() == pos + tp.1
                &&& final(self).lines_model() == spec_lines(tp.0)
                &&& final(self).idx_model() == (if block_offset <= spec_lines(tp.0).len() {
                    block_offset as int
                } else {
                    spec_lines(tp.0).len() as int
                })
            }),
            !r ==> final(self).pos_model() == old(self).pos_model() && final(self).lines_model()
                == old(self).lines_model() && final(self).idx_model() == old(self).idx_model(),
    {
        if pos > self.data.len() {
            return false;
        }
        match gunzip_member(&self.data, pos) {
            None => false,
            Some((text, used)) => {
                let lines = split_lines(text.as_str());
                let idx = if block_offset <= lines.len() {
                    block_offset
                } else {
                    lines.len()
                };
                proof {
                    assert(lines.deep_view().len() == lines@.len());
                }
                self.block_lines = lines;
                self.line_idx = idx;
                self.file_pos = pos + used;
                true
            },
        }
    }

    /// The next relevant line: reads forward in the current block,
    /// decoding the following block when the current one runs out,
    /// skipping blank lines and comments other than the header line.
    #[verifier::loop_isolation(false)]
    fn fill_line(&mut self) -> (r: Result<Option<String>, DecodeError>)
        requires
            old(self).wf(),
        ensures
            final(self).wf(),
            final(self).data_model() == old(self).data_model(),
            final(self).run_length_model() == old(self).run_length_model(),
            final(self).header_model() == old(self).header_model(),
            final(self).pos_model() >= old(self).pos_model(),
            final(self).pos_model() == old(self).pos_model() ==> final(self).lines_model()
                == old(self).lines_model(),
            final(self).pos_model() > old(self).pos_model() ==> (exists|p: int|
                old(self).pos_model() <= p < final(self).pos_model() && ((#[trigger] gunzip_of(
                    final(self).data_model().skip(p),
                )) matches Some(tp) && final(self).lines_model() == spec_lines(tp.0) && final(self).pos_model() == p + tp.1)),
            match r {
                Ok(opt) => match opt {
                    Some(l) => {
                        &&& 1 <= final(self).idx_model() <= final(self).lines_model().len()
                        &&& l@ == spec_trim(
                            final(self).lines_model()[final(self).idx_model() - 1],
                        )
                        &&& is_column_line(l@)
                        &&& (final(self).pos_model() == old(self).pos_model() ==> old(self).idx_model()
                            <= final(self).idx_model() - 1 && (forall|j: int|
                            old(self).idx_model() <= j < final(self).idx_model() - 1
                                ==> is_skippable_line(#[trigger] final(self).lines_model()[j])))
                        &&& (final(self).pos_model() > old(self).pos_model() ==> (forall|j: int|
                            0 <= j < final(self).idx_model() - 1 ==> is_skippable_line(
                                #[trigger] final(self).lines_model()[j],
                            )))
                        &&& (final(self).pos_model() > old(self).pos_model() || (final(self).pos_model() == old(self).pos_model() && final(self).idx_model() > old(self).idx_model()))
                    },
                    None => final(self).pos_model() == final(self).data_model().len() && final(self).idx_model() == final(self).lines_model().len(),
                },
                Err(e) => e == DecodeError::BadBlock && gunzip_of(
                    final(self).data_model().skip(final(self).pos_model()),
                ) is None && final(self).pos_model() < final(self).data_model().len(),
            },
    {
        let ghost d0 = self.data@;
        let ghost p0 = self.file_pos as int;
        let ghost i0 = self.line_idx as int;
        let ghost l0 = self.block_lines.deep_view();
        let ghost rl0 = self.run_length_encode;
        let ghost hv0 = pairs_view(self.header.tags@);
        loop
            invariant
                self.wf(),
                self.data@ == d0,
                self.run_length_encode == rl0,
                pairs_view(self.header.tags@) == hv0,
                self.file_pos as int >= p0,
                self.file_pos as int == p0 ==> self.line_idx as int >= i0,
                self.file_pos as int == p0 ==> self.block_lines.deep_view() == l0,
                self.file_pos as int > p0 ==> (exists|p: int|
                    p0 <= p < self.file_pos as int && ((#[trigger] gunzip_of(
                        self.data@.skip(p),
                    )) matches Some(tp) && self.block_lines.deep_view() == spec_lines(tp.0)
                        && self.file_pos as int == p + tp.1)),
                self.file_pos as int == p0 ==> (forall|j: int|
                    i0 <= j < self.line_idx as int ==> is_skippable_line(
                        #[trigger] self.block_lines.deep_view()[j],
                    )),
                self.file_pos as int > p0 ==> (forall|j: int|
                    0 <= j < self.line_idx as int ==> is_skippable_line(
                        #[trigger] self.block_lines.deep_view()[j],
                    )),
            decreases self.data@.len() - self.file_pos, self.block_lines@.len() - self.line_idx,
        {
            if self.line_idx < self.block_lines.len() {
                let cs = chars_of(self.block_lines[self.line_idx].as_str());
                let ghost j = self.line_idx as int;
                self.line_idx = self.line_idx + 1;
                let t = trim_chars(&cs);
                proof {
                    assert(self.lines_model()[j] == self.block_lines@[j]@);
                    assert(t@ == spec_trim(self.lines_model()[j]));
                }
                if t.len() == 0 {
                    proof {
                        assert(is_skippable_line(self.lines_model()[j]));
                    }
                    continue ;
                }
                if t[0] == '#' {
                    let is_taf = t.len() >= 4 && t[1] == 't' && t[2] == 'a' && t[3] == 'f';
                    proof {
                        if is_taf {
                            assert(t@.subrange(0, 4) =~= seq!['#', 't', 'a', 'f']);
                        } else {
                            if t@.len() >= 4 && t@.subrange(0, 4) == seq!['#', 't', 'a', 'f'] {
                                assert(t@[1] == t@.subrange(0, 4)[1]);
                                assert(t@[2] == t@.subrange(0, 4)[2]);
                                assert(t@[3] == t@.subrange(0, 4)[3]);
                            }
                        }
                    }
                    if !is_taf {
                        proof {
                            assert(!is_taf_header_line(t@));
                            assert(is_skippable_line(self.lines_model()[j]));
                        }
                        continue ;
                    }
                }
                let l = string_from_chars(&t);
                proof {
                    assert(l@ == spec_trim(self.lines_model()[j]));
                    assert(is_column_line(l@));
                }
                return Ok(Some(l));
            } else if self.file_pos >= self.data.len() {
                return Ok(None);
            } else {
                match gunzip_member(&self.data, self.file_pos) {
                    None => {
                        return Err(DecodeError::BadBlock);
                    },
                    Some((text, used)) => {
                        let ghost decode_at = self.file_pos as int;
                        let lines = split_lines(text.as_str());
                        proof {
                            assert(lines.deep_view().len() == lines@.len());
                        }
                        self.block_lines = lines;
                        self.line_idx = 0;
                        self.file_pos = self.file_pos + used;
                        proof {
                            assert(gunzip_of(self.data@.skip(decode_at)) matches Some(tp)
                                && self.block_lines.deep_view() == spec_lines(tp.0)
                                && self.file_pos as int == decode_at + tp.1);
                        }
                    },
                }
            }
        }
    }

    /// The next decoded column, or nothing at the end of the source.  A
    /// line that fails to decode, or a block that fails to decompress,
    /// comes back as that error.
    pub fn next(&mut self) -> (r: Option<Result<TafColumn, DecodeError>>)
        requires
            old(self).wf(),
        ensures
            final(self).wf(),
            final(self).data_model() == old(self).data_model(),
            final(self).run_length_model() == old(self).run_length_model(),
            final(self).header_model() == old(self).header_model(),
            final(self).pos_model() >= old(self).pos_model(),
            final(self).pos_model() == old(self).pos_model() ==> final(self).lines_model()
                == old(self).lines_model(),
            final(self).pos_model() > old(self).pos_model() ==> (exists|p: int|
                old(self).pos_model() <= p < final(self).pos_model() && ((#[trigger] gunzip_of(
                    final(self).data_model().skip(p),
                )) matches Some(tp) && final(self).lines_model() == spec_lines(tp.0) && final(self).pos_model() == p + tp.1)),
            r is None ==> final(self).pos_model() == final(self).data_model().len() && final(self).idx_model() == final(self).lines_model().len(),
            r matches Some(res) ==> (res == Err::<TafColumn, DecodeError>(DecodeError::BadBlock)
                ==> gunzip_of(final(self).data_model().skip(final(self).pos_model())) is None
                && final(self).pos_model() < final(self).data_model().len()),
            r matches Some(res) ==> (!(res == Err::<TafColumn, DecodeError>(DecodeError::BadBlock))
                ==> {
                &&& 1 <= final(self).idx_model() <= final(self).lines_model().len()
                &&& is_column_line(
                    spec_trim(final(self).lines_model()[final(self).idx_model() - 1]),
                )
                &&& match spec_parse_column(
                    spec_trim(final(self).lines_model()[final(self).idx_model() - 1]),
                    old(self).run_length_model(),
                ) {
                    Ok(cm) => res matches Ok(c) && c@ == cm,
                    Err(e) => res matches Err(e2) && e2 == e,
                }
                &&& (final(self).pos_model() == old(self).pos_model() ==> old(self).idx_model()
                    <= final(self).idx_model() - 1 && (forall|j: int|
                    old(self).idx_model() <= j < final(self).idx_model() - 1
                        ==> is_skippable_line(#[trigger] final(self).lines_model()[j])))
                &&& (final(self).pos_model() > old(self).pos_model() ==> (forall|j: int|
                    0 <= j < final(self).idx_model() - 1 ==> is_skippable_line(
                        #[trigger] final(self).lines_model()[j],
                    )))
                &&& (final(self).pos_model() > old(self).pos_model() || (final(self).pos_model()
                    == old(self).pos_model() && final(self).idx_model() > old(self).idx_model()))
            }),
    {
        match self.fill_line() {
            Err(e) => Some(Err(e)),
            Ok(None) => None,
            Ok(Some(l)) => {
                let res = parse_taf_column(l.as_str(), self.run_length_encode);
                proof {
                    crate::taf::lemma_parse_column_no_block_error(
                        l@,
                        self.run_length_encode,
                    );
                }
                Some(res)
            },
        }
    }
}

// ---------------------------------------------------------------------------
// The resolved-column stream
// ---------------------------------------------------------------------------
/// A species table extended with empty rows up to `n`.
pub open spec fn grow_species(sp: Seq<Option<Seq<char>>>, n: int) -> Seq<Option<Seq<char>>> {
    if sp.len() >= n {
        sp
    } else {
        sp + Seq::new((n - sp.len()) as nat, |i: int| None::<Seq<char>>)
    }
}

/// A coordinate table extended with empty rows up to `n`.
pub open spec fn grow_coords(co: Seq<Option<CoordModel>>, n: int) -> Seq<Option<CoordModel>> {
    if co.len() >= n {
        co
    } else {
        co + Seq::new((n - co.len()) as nat, |i: int| None::<CoordModel>)
    }
}

/// Growing by one empty row extends the padded table by one.
proof fn lemma_grow_species_push(sp: Seq<Option<Seq<char>>>, cur: Seq<Option<String>>)
    requires
        species_view(cur) == grow_species(sp, cur.len() as int),
        cur.len() >= sp.len(),
    ensures
        species_view(cur.push(None)) == grow_species(sp, cur.len() as int + 1),
{
    assert forall|j: int| 0 <= j < cur.len() + 1 implies species_view(cur.push(None))[j]
        == grow_species(sp, cur.len() as int + 1)[j] by {
        if j < cur.len() {
            assert(cur.push(None)[j] == cur[j]);
            assert(species_view(cur)[j] == grow_species(sp, cur.len() as int)[j]);
        } else {
            assert(cur.push(None)[j] == None::<String>);
        }
    }
    assert(species_view(cur.push(None)) =~= grow_species(sp, cur.len() as int + 1));
}

/// Growing by one empty row extends the padded table by one.
proof fn lemma_grow_coords_push(co: Seq<Option<CoordModel>>, cur: Seq<Option<Coordinate>>)
    requires
        coords_view(cur) == grow_coords(co, cur.len() as int),
        cur.len() >= co.len(),
    ensures
        coords_view(cur.push(None)) == grow_coords(co, cur.len() as int + 1),
{
    assert forall|j: int| 0 <= j < cur.len() + 1 implies coords_view(cur.push(None))[j]
        == grow_coords(co, cur.len() as int + 1)[j] by {
        if j < cur.len() {
            assert(cur.push(None)[j] == cur[j]);
            assert(coords_view(cur)[j] == grow_coords(co, cur.len() as int)[j]);
        } else {
            assert(cur.push(None)[j] == None::<Coordinate>);
        }
    }
    assert(coords_view(cur.push(None)) =~= grow_coords(co, cur.len() as int + 1));
}

/// The restartable stream of fully resolved columns: each pulled column
/// flows through the decoder and folds into the running tables, and the
/// caller receives the column with a snapshot of both tables.
pub struct TafAlignmentIterator {
    parser: TafParser,
    species_map: Vec<Option<String>>,
    current_coords: Vec<Option<Coordinate>>,
    col_index: usize,
}

impl TafAlignmentIterator {
    /// The parser is well formed and the two tables stay in step.
    pub closed spec fn wf(&self) -> bool {
        self.parser.wf() && self.species_map@.len() == self.current_coords@.len()
    }

    /// The running species table.
    pub closed spec fn species_model(&self) -> Seq<Option<Seq<char>>> {
        species_view(self.species_map@)
    }

    /// The running coordinate table.
    pub closed spec fn coords_model(&self) -> Seq<Option<CoordModel>> {
        coords_view(self.current_coords@)
    }

    /// The index of the next column.
    pub closed spec fn col_model(&self) -> int {
        self.col_index as int
    }

    /// The compressed source bytes.
    pub closed spec fn data_model(&self) -> Seq<u8> {
        self.parser.data_model()
    }

    /// The cursor into the compressed source.
    pub closed spec fn pos_model(&self) -> int {
        self.parser.pos_model()
    }

    /// The cursor into the current block's lines.
    pub closed spec fn idx_model(&self) -> int {
        self.parser.idx_model()
    }

    /// The current block's lines.
    pub closed spec fn lines_model(&self) -> Seq<Seq<char>> {
        self.parser.lines_model()
    }

    /// The count of lines in the current block.
    pub closed spec fn lines_len_model(&self) -> int {
        self.parser.lines_model().len() as int
    }

    /// The stream's run-length mode.
    pub closed spec fn run_length_model(&self) -> bool {
        self.parser.run_length_encode
    }

    /// A well-formed stream keeps its cursors within range.
    pub proof fn lemma_wf_bounds(&self)
        requires
            self.wf(),
        ensures
            0 <= self.pos_model() <= self.data_model().len(),
            0 <= self.idx_model() <= self.lines_len_model(),
            self.lines_len_model() == self.lines_model().len(),
    {
    }

    /// A well-formed stream's block comes from its bytes.
    pub proof fn lemma_block_tied(&self)
        requires
            self.wf(),
        ensures
            stream_block_tied(self.data_model(), self.pos_model(), self.lines_model()),
    {
        self.parser.lemma_block_tied();
    }

    /// Wraps an opened parser with empty tables.
    pub fn new(parser: TafParser) -> (r: TafAlignmentIterator)
        requires
            parser.wf(),
        ensures
            r.wf(),
            r.species_model() == Seq::<Option<Seq<char>>>::empty(),
            r.coords_model() == Seq::<Option<CoordModel>>::empty(),
            r.col_model() == 0,
            r.data_model() == parser.data_model(),
            r.run_length_model() == parser.run_length_model(),
    {
        let r = TafAlignmentIterator {
            parser,
            species_map: Vec::new(),
            current_coords: Vec::new(),
            col_index: 0,
        };
        proof {
            assert(r.species_model() =~= Seq::<Option<Seq<char>>>::empty());
            assert(r.coords_model() =~= Seq::<Option<CoordModel>>::empty());
        }
        r
    }

    /// Repositions the underlying source and discards the coordinate
    /// state: after a successful reopen all rows are unknown again
    /// until operations repopulate them.
    pub fn reopen_at(&mut self, file_offset: usize, intra_block_lines: usize) -> (r: bool)
        requires
            old(self).wf(),
        ensures
            final(self).wf(),
            final(self).data_model() == old(self).data_model(),
            final(self).run_length_model() == old(self).run_length_model(),
            r == (file_offset <= old(self).data_model().len() && gunzip_of(
                old(self).data_model().skip(file_offset as int),
            ) is Some),
            r ==> final(self).species_model() == Seq::<Option<Seq<char>>>::empty() && final(self).coords_model() == Seq::<Option<CoordModel>>::empty() && final(self).col_model()
                == 0,
            r ==> (gunzip_of(old(self).data_model().skip(file_offset as int)) matches Some(tp)
                && {
                &&& final(self).pos_model() == file_offset + tp.1
                &&& final(self).lines_model() == spec_lines(tp.0)
                &&& final(self).idx_model() == (if intra_block_lines <= spec_lines(
                    tp.0,
                ).len() {
                    intra_block_lines as int
                } else {
                    spec_lines(tp.0).len() as int
                })
            }),
            !r ==> final(self).species_model() == old(self).species_model() && final(self).coords_model() == old(self).coords_model() && final(self).col_model() == old(self).col_model(),
    {
        let ok = self.parser.seek_to(file_offset, intra_block_lines);
        if ok {
            self.species_map = Vec::new();
            self.current_coords = Vec::new();
            self.col_index = 0;
            proof {
                assert(self.species_model() =~= Seq::<Option<Seq<char>>>::empty());
                assert(self.coords_model() =~= Seq::<Option<CoordModel>>::empty());
            }
        }
        ok
    }

    /// Pulls, decodes and folds the next column.  On success the yielded
    /// snapshot's tables are exactly the fold of this column's
    /// operations into the running tables, first grown to the column's
    /// row count; on an error or at the end of the source the running
    /// tables are unchanged.
    #[verifier::loop_isolation(false)]
    pub fn next(&mut self) -> (r: Option<Result<TafAlignmentColumn, DecodeError>>)
        requires
            old(self).wf(),
        ensures
            final(self).wf(),
            final(self).data_model() == old(self).data_model(),
            final(self).run_length_model() == old(self).run_length_model(),
            final(self).pos_model() >= old(self).pos_model(),
            final(self).pos_model() == old(self).pos_model() ==> final(self).lines_model()
                == old(self).lines_model(),
            final(self).pos_model() == old(self).pos_model() ==> final(self).lines_len_model()
                == old(self).lines_len_model(),
            final(self).lines_len_model() == final(self).lines_model().len(),
            final(self).pos_model() > old(self).pos_model() ==> (exists|p: int|
                old(self).pos_model() <= p < final(self).pos_model() && ((#[trigger] gunzip_of(
                    final(self).data_model().skip(p),
                )) matches Some(tp) && final(self).lines_model() == spec_lines(tp.0) && final(self).pos_model() == p + tp.1)),

            r is None ==> final(self).pos_model() == final(self).data_model().len() && final(self).idx_model() == final(self).lines_model().len(),
            r matches Some(res) ==> (res == Err::<TafAlignmentColumn, DecodeError>(
                DecodeError::BadBlock,
            ) ==> gunzip_of(final(self).data_model().skip(final(self).pos_model())) is None
                && final(self).pos_model() < final(self).data_model().len()),
            match r {
                Some(res) => match res {
                    Ok(tac) => {
                        &&& tac@.species_map == spec_fold_species(
                            grow_species(
                                old(self).species_model(),
                                tac@.column.alleles.len() as int,
                            ),
                            tac@.column.coordinates,
                        )
                        &&& tac@.coords == spec_fold_coords(
                            grow_coords(old(self).coords_model(), tac@.column.alleles.len() as int),
                            tac@.column.coordinates,
                        )
                        &&& final(self).species_model() == tac@.species_map
                        &&& final(self).coords_model() == tac@.coords
                        &&& tac@.col_index == old(self).col_model()
                        &&& final(self).col_model() == sat_inc(old(self).col_model())
                        &&& 1 <= final(self).idx_model() <= final(self).lines_model().len()
                        &&& is_column_line(
                            spec_trim(
                                final(self).lines_model()[final(self).idx_model() - 1],
                            ),
                        )
                        &&& spec_parse_column(
                            spec_trim(
                                final(self).lines_model()[final(self).idx_model() - 1],
                            ),
                            old(self).run_length_model(),
                        ) == Ok::<ColumnModel, DecodeError>(tac@.column)
                        &&& (final(self).pos_model() == old(self).pos_model() ==> old(self).idx_model() <= final(self).idx_model() - 1 && (forall|j: int|
                            old(self).idx_model() <= j < final(self).idx_model() - 1
                                ==> is_skippable_line(
                                #[trigger] final(self).lines_model()[j],
                            )))
                        &&& (final(self).pos_model() > old(self).pos_model() ==> (forall|j: int|
                            0 <= j < final(self).idx_model() - 1 ==> is_skippable_line(
                                #[trigger] final(self).lines_model()[j],
                            )))
                        &&& (final(self).pos_model() > old(self).pos_model() || (final(self).pos_model() == old(self).pos_model() && final(self).idx_model() > old(self).idx_model()))
                    },
                    Err(e) => {
                        &&& final(self).species_model() == old(self).species_model()
                        &&& final(self).coords_model() == old(self).coords_model()
                        &&& final(self).col_model() == old(self).col_model()
                        &&& (!(e == DecodeError::BadBlock) ==> {
                            &&& 1 <= final(self).idx_model() <= final(self).lines_model().len()
                            &&& match spec_parse_column(
                                spec_trim(
                                    final(self).lines_model()[final(self).idx_model() - 1],
                                ),
                                old(self).run_length_model(),
                            ) {
                                Err(pe) => pe == e,
                                Ok(cm) => e == DecodeError::OffsetOverflow
                                    && !crate::fold::spec_fold_ok(
                                    grow_coords(
                                        old(self).coords_model(),
                                        cm.alleles.len() as int,
                                    ),
                                    cm.coordinates,
                                ),
                            }
                        })
                    },
                },
                None => final(self).species_model() == old(self).species_model() && final(self).coords_model() == old(self).coords_model() && final(self).col_model() == old(self).col_model(),
            },
    {
        match self.parser.next() {
            None => None,
            Some(Err(e)) => Some(Err(e)),
            Some(Ok(col)) => {
                let mut sp_grown = clone_species(&self.species_map);
                let mut co_grown = clone_coords(&self.current_coords);
                proof {
                    assert(species_view(sp_grown@) =~= grow_species(
                        old(self).species_model(),
                        sp_grown@.len() as int,
                    ));
                    assert(coords_view(co_grown@) =~= grow_coords(
                        old(self).coords_model(),
                        co_grown@.len() as int,
                    ));
                }
                while sp_grown.len() < col.alleles.len()
                    invariant
                        sp_grown@.len() == co_grown@.len(),
                        sp_grown@.len() >= old(self).species_map@.len(),
                        old(self).species_map@.len() == old(self).current_coords@.len(),
                        old(self).species_map@.len() < sp_grown@.len() ==> sp_grown@.len()
                            <= col.alleles@.len(),
                        species_view(sp_grown@) == grow_species(
                            old(self).species_model(),
                            sp_grown@.len() as int,
                        ),
                        coords_view(co_grown@) == grow_coords(
                            old(self).coords_model(),
                            co_grown@.len() as int,
                        ),
                    decreases col.alleles.len() - sp_grown.len(),
                {
                    proof {
                        lemma_grow_species_push(old(self).species_model(), sp_grown@);
                        lemma_grow_coords_push(old(self).coords_model(), co_grown@);
                    }
                    sp_grown.push(None);
                    co_grown.push(None);
                }
                proof {
                    if sp_grown@.len() as int != col.alleles@.len() as int {
                        assert(sp_grown@.len() == old(self).species_map@.len());
                        assert(old(self).species_model().len() >= col.alleles@.len());
                    }
                    assert(species_view(sp_grown@) == grow_species(
                        old(self).species_model(),
                        col.alleles@.len() as int,
                    ));
                    assert(coords_view(co_grown@) == grow_coords(
                        old(self).coords_model(),
                        col.alleles@.len() as int,
                    ));
                }
                match fold_column_ops(&sp_grown, &co_grown, &col.coordinates) {
                    Err(e) => Some(Err(e)),
                    Ok((nsp, nco)) => {
                        self.species_map = nsp;
                        self.current_coords = nco;
                        let snapshot = TafAlignmentColumn {
                            column: col,
                            species_map: clone_species(&self.species_map),
                            coords: clone_coords(&self.current_coords),
                            col_index: self.col_index,
                        };
                        if self.col_index < usize::MAX {
                            self.col_index = self.col_index + 1;
                        }
                        Some(Ok(snapshot))
                    },
                }
            },
        }
    }
}

} // verus!
