//! The variant-record text format: a header of `##` metadata lines
//! closed by the `#CHROM` column line, then one tab-separated record
//! per line.  The reader here works over lines already in memory; the
//! whole file may first pass through the multi-member decompressor.
use vstd::prelude::*;

use crate::gz::gunzip_all_of;
use crate::gz::gunzip_multi;
use crate::taf::pairs_view;
use crate::text::chars_of;
use crate::text::chars_range;
use crate::text::has_prefix;
use crate::text::spec_lines;
use crate::text::spec_parse_u64;
use crate::text::spec_split_char;
use crate::text::spec_trim;
use crate::text::split_char_chars;
use crate::text::split_lines;
use crate::text::str_has_prefix;
use crate::text::string_from_chars;
use crate::text::trim_chars;
use crate::text::parse_u64_chars;

verus! {

/// Why the variant file could not be read.
#[derive(Debug, Clone, Copy, PartialEq, Eq, Structural)]
pub enum VcfError {
    /// The header ended without a `#CHROM` column line.
    MissingHeader,
    /// A metadata line lacked a field its kind requires.
    BadHeaderLine,
    /// A record line had too few fields or an unreadable position.
    BadRecord,
    /// The compressed file could not be decompressed.
    BadGzip,
}

/// One variant record.
#[derive(Debug)]
pub struct Record {
    pub chrom: String,
    pub pos: u64,
    pub id: String,
    pub ref_: String,
    pub alt: String,
    pub qual: String,
    pub filter: String,
    pub info: Vec<(String, String)>,
    pub format: Vec<(String, String)>,
    pub samples: Vec<Vec<(String, String)>>,
}

/// Model of a `Record`.
#[verifier::ext_equal]
pub struct RecordModel {
    pub chrom: Seq<char>,
    pub pos: u64,
    pub id: Seq<char>,
    pub ref_: Seq<char>,
    pub alt: Seq<char>,
    pub qual: Seq<char>,
    pub filter: Seq<char>,
    pub info: Seq<(Seq<char>, Seq<char>)>,
    pub format: Seq<(Seq<char>, Seq<char>)>,
    pub samples: Seq<Seq<(Seq<char>, Seq<char>)>>,
}

/// The views of a list of per-sample pair lists.
pub open spec fn samples_view(v: Seq<Vec<(String, String)>>) -> Seq<
    Seq<(Seq<char>, Seq<char>)>,
> {
    v.map_values(|x: Vec<(String, String)>| pairs_view(x@))
}

impl View for Record {
    type V = RecordModel;

    open spec fn view(&self) -> RecordModel {
        RecordModel {
            chrom: self.chrom@,
            pos: self.pos,
            id: self.id@,
            ref_: self.ref_@,
            alt: self.alt@,
            qual: self.qual@,
            filter: self.filter@,
            info: pairs_view(self.info@),
            format: pairs_view(self.format@),
            samples: samples_view(self.samples@),
        }
    }
}

// ---------------------------------------------------------------------------
// One record line
// ---------------------------------------------------------------------------
/// A semicolon-separated info field split into key:value pairs at each
/// part's equals signs: exactly one equals sign gives a pair, anything
/// else keeps the part's first segment with an empty value.
pub open spec fn spec_info_pairs(s: Seq<char>) -> Seq<(Seq<char>, Seq<char>)> {
    spec_split_char(s, ';').map_values(
        |f: Seq<char>|
            {
                let parts = spec_split_char(f, '=');
                if parts.len() == 2 {
                    (parts[0], parts[1])
                } else {
                    (parts[0], Seq::<char>::empty())
                }
            },
    )
}

/// The format field's keys, each with an empty placeholder value.
pub open spec fn spec_format_pairs(s: Seq<char>) -> Seq<(Seq<char>, Seq<char>)> {
    spec_split_char(s, ':').map_values(|f: Seq<char>| (f, Seq::<char>::empty()))
}

/// One sample field's values paired with the format keys, in column
/// order, stopping at the shorter of the two lists.
pub open spec fn spec_sample_pairs(fmt: Seq<Seq<char>>, s: Seq<char>) -> Seq<
    (Seq<char>, Seq<char>),
> {
    let vals = spec_split_char(s, ':');
    Seq::new(
        if fmt.len() <= vals.len() {
            fmt.len()
        } else {
            vals.len()
        },
        |i: int| (fmt[i], vals[i]),
    )
}

/// What one record line parses to.  A line of fewer than nine
/// tab-separated fields, or one whose position is unreadable, is
/// rejected.
pub open spec fn spec_parse_record(l: Seq<char>) -> Result<RecordModel, VcfError> {
    let fields = spec_split_char(l, '\t');
    if fields.len() < 9 {
        Err(VcfError::BadRecord)
    } else {
        match spec_parse_u64(fields[1]) {
            None => Err(VcfError::BadRecord),
            Some(pos) => Ok(
                RecordModel {
                    chrom: fields[0],
                    pos,
                    id: fields[2],
                    ref_: fields[3],
                    alt: fields[4],
                    qual: fields[5],
                    filter: fields[6],
                    info: spec_info_pairs(fields[7]),
                    format: spec_format_pairs(fields[8]),
                    samples: Seq::new(
                        (fields.len() - 9) as nat,
                        |i: int| spec_sample_pairs(spec_split_char(fields[8], ':'), fields[i + 9]),
                    ),
                },
            ),
        }
    }
}

/// Decodes one record line.
#[verifier::loop_isolation(false)]
pub fn parse_record(line: &str) -> (r: Result<Record, VcfError>)
    ensures
        match r {
            Ok(rec) => spec_parse_record(line@) == Ok::<RecordModel, VcfError>(rec@),
            Err(e) => spec_parse_record(line@) == Err::<RecordModel, VcfError>(e),
        },
{
    let cs = chars_of(line);
    let fields = split_char_chars(&cs, '\t');
    let ghost fv = fields.deep_view();
    proof {
        assert(fv.len() == fields@.len());
    }
    if fields.len() < 9 {
        return Err(VcfError::BadRecord);
    }
    proof {
        assert forall|j: int| 0 <= j < fv.len() implies #[trigger] fv[j] == fields@[j]@ by {}
    }
    let pos = match parse_u64_chars(&fields[1]) {
        Some(v) => v,
        None => {
            return Err(VcfError::BadRecord);
        },
    };
    let chrom = string_from_chars(&fields[0]);
    let id = string_from_chars(&fields[2]);
    let ref_ = string_from_chars(&fields[3]);
    let alt = string_from_chars(&fields[4]);
    let qual = string_from_chars(&fields[5]);
    let filter = string_from_chars(&fields[6]);
    // The info field.
    let info_parts = split_char_chars(&fields[7], ';');
    let ghost ipv = info_parts.deep_view();
    let mut info: Vec<(String, String)> = Vec::new();
    let mut i: usize = 0;
    proof {
        assert(ipv.len() == info_parts@.len());
    }
    while i < info_parts.len()
        invariant
            i <= info_parts.len(),
            ipv == info_parts.deep_view(),
            ipv.len() == info_parts@.len(),
            ipv == spec_split_char(fv[7], ';'),
            pairs_view(info@) =~= spec_info_pairs(fv[7]).take(i as int),
        decreases info_parts.len() - i,
    {
        proof {
            assert(ipv[i as int] == info_parts@[i as int]@);
        }
        let parts = split_char_chars(&info_parts[i], '=');
        proof {
            assert(parts.deep_view().len() == parts@.len());
            assert(parts.deep_view()[0] == parts@[0]@);
            if parts.deep_view().len() == 2 {
                assert(parts.deep_view()[1] == parts@[1]@);
            }
        }
        let pair = if parts.len() == 2 {
            (string_from_chars(&parts[0]), string_from_chars(&parts[1]))
        } else {
            (string_from_chars(&parts[0]), String::new())
        };
        let ghost prev = info@;
        info.push(pair);
        proof {
            assert(pairs_view(info@) =~= pairs_view(prev).push((pair.0@, pair.1@)));
            assert(spec_info_pairs(fv[7])[i as int] == (pair.0@, pair.1@));
            assert(pairs_view(info@) =~= spec_info_pairs(fv[7]).take(i + 1 as int));
        }
        i += 1;
    }
    proof {
        assert(spec_info_pairs(fv[7]).take(ipv.len() as int) =~= spec_info_pairs(fv[7]));
    }
    // The format field.
    let format_parts = split_char_chars(&fields[8], ':');
    let ghost fpv = format_parts.deep_view();
    let mut format: Vec<(String, String)> = Vec::new();
    let mut k: usize = 0;
    proof {
        assert(fpv.len() == format_parts@.len());
    }
    while k < format_parts.len()
        invariant
            k <= format_parts.len(),
            fpv == format_parts.deep_view(),
            fpv.len() == format_parts@.len(),
            fpv == spec_split_char(fv[8], ':'),
            pairs_view(format@) =~= spec_format_pairs(fv[8]).take(k as int),
        decreases format_parts.len() - k,
    {
        proof {
            assert(fpv[k as int] == format_parts@[k as int]@);
        }
        let pair = (string_from_chars(&format_parts[k]), String::new());
        let ghost prevf = format@;
        format.push(pair);
        proof {
            assert(pairs_view(format@) =~= pairs_view(prevf).push((pair.0@, pair.1@)));
            assert(spec_format_pairs(fv[8])[k as int] == (pair.0@, pair.1@));
            assert(pairs_view(format@) =~= spec_format_pairs(fv[8]).take(k + 1 as int));
        }
        k += 1;
    }
    proof {
        assert(spec_format_pairs(fv[8]).take(fpv.len() as int) =~= spec_format_pairs(fv[8]));
    }
    // The samples.
    let mut samples: Vec<Vec<(String, String)>> = Vec::new();
    let mut s: usize = 9;
    proof {
        assert(samples_view(samples@) =~= Seq::<Seq<(Seq<char>, Seq<char>)>>::empty());
    }
    while s < fields.len()
        invariant
            9 <= s <= fields.len(),
            fv == fields.deep_view(),
            fv.len() == fields@.len(),
            fpv == spec_split_char(fv[8], ':'),
            samples_view(samples@) =~= Seq::new(
                (s - 9) as nat,
                |i: int| spec_sample_pairs(spec_split_char(fv[8], ':'), fv[i + 9]),
            ),
        decreases fields.len() - s,
    {
        proof {
            assert(fv[s as int] == fields@[s as int]@);
        }
        let vals = split_char_chars(&fields[s], ':');
        let ghost vv = vals.deep_view();
        proof {
            assert(vv.len() == vals@.len());
        }
        let n = if format_parts.len() <= vals.len() {
            format_parts.len()
        } else {
            vals.len()
        };
        let mut pairs: Vec<(String, String)> = Vec::new();
        let mut j: usize = 0;
        while j < n
            invariant
                j <= n,
                n <= format_parts@.len(),
                n <= vals@.len(),
                fpv == format_parts.deep_view(),
                fpv.len() == format_parts@.len(),
                vv == vals.deep_view(),
                vv.len() == vals@.len(),
                pairs_view(pairs@) =~= Seq::new(j as nat, |i: int| (fpv[i], vv[i])),
            decreases n - j,
        {
            proof {
                assert(fpv[j as int] == format_parts@[j as int]@);
                assert(vv[j as int] == vals@[j as int]@);
            }
            let fkc = chars_range(&format_parts[j], 0, format_parts[j].len());
            let vvc = chars_range(&vals[j], 0, vals[j].len());
            proof {
                assert(fkc@ =~= format_parts@[j as int]@);
                assert(vvc@ =~= vals@[j as int]@);
            }
            let pair = (string_from_chars(&fkc), string_from_chars(&vvc));
            let ghost prevp = pairs@;
            pairs.push(pair);
            proof {
                assert(pairs_view(pairs@) =~= pairs_view(prevp).push((pair.0@, pair.1@)));
                assert(pairs_view(pairs@) =~= Seq::new((j + 1) as nat, |i: int| (fpv[i], vv[i])));
            }
            j += 1;
        }
        proof {
            assert(pairs_view(pairs@) =~= spec_sample_pairs(spec_split_char(fv[8], ':'), fv[
                s as int]));
        }
        let ghost prevs = samples@;
        samples.push(pairs);
        proof {
            assert(samples_view(samples@) =~= samples_view(prevs).push(pairs_view(pairs@)));
            assert(samples_view(samples@) =~= Seq::new(
                (s - 9 + 1) as nat,
                |i: int| spec_sample_pairs(spec_split_char(fv[8], ':'), fv[i + 9]),
            ));
        }
        s += 1;
    }
    let rec = Record { chrom, pos, id, ref_, alt, qual, filter, info, format, samples };
    proof {
        match spec_parse_record(cs@) {
            Ok(rm) => {
                assert(rec@ =~~= rm);
            },
            Err(_) => {
                assert(false);
            },
        }
    }
    Ok(rec)
}

// ---------------------------------------------------------------------------
// The header
// ---------------------------------------------------------------------------
/// What the header lines parse to, scanning from line `i` with the
/// metadata gathered so far: the file-format version, the INFO and
/// FORMAT entries read positionally off their comma and equals signs,
/// and, at the `#CHROM` line, the sample names (the tab-separated
/// columns past the ninth, trimmed) and the index where records begin.
/// A file whose header never reaches `#CHROM` is rejected.
pub open spec fn spec_header_scan(
    lines: Seq<Seq<char>>,
    i: int,
    version: Seq<char>,
    info: Seq<(Seq<char>, Seq<char>)>,
    fmt: Seq<(Seq<char>, Seq<char>)>,
) -> Result<(Seq<char>, Seq<(Seq<char>, Seq<char>)>, Seq<(Seq<char>, Seq<char>)>, Seq<Seq<char>>, int), VcfError>
    decreases lines.len() - i,
{
    if i >= lines.len() {
        Err(VcfError::MissingHeader)
    } else {
        let l = lines[i];
        if has_prefix(l, "##fileformat="@) {
            let segs = spec_split_char(l, '=');
            if segs.len() < 2 {
                Err(VcfError::BadHeaderLine)
            } else {
                spec_header_scan(lines, i + 1, spec_trim(segs[1]), info, fmt)
            }
        } else if has_prefix(l, "##INFO"@) {
            let commas = spec_split_char(l, ',');
            let idsegs = spec_split_char(commas[0], '=');
            if idsegs.len() < 2 {
                Err(VcfError::BadHeaderLine)
            } else if commas.len() < 4 {
                Err(VcfError::BadHeaderLine)
            } else {
                let dsegs = spec_split_char(commas[3], '=');
                if dsegs.len() < 2 {
                    Err(VcfError::BadHeaderLine)
                } else {
                    spec_header_scan(lines, i + 1, version, info.push((idsegs[1], dsegs[1])), fmt)
                }
            }
        } else if has_prefix(l, "##FORMAT"@) {
            let commas = spec_split_char(l, ',');
            let idsegs = spec_split_char(commas[0], '=');
            if idsegs.len() < 2 {
                Err(VcfError::BadHeaderLine)
            } else if commas.len() < 4 {
                Err(VcfError::BadHeaderLine)
            } else {
                let dsegs = spec_split_char(commas[3], '=');
                if dsegs.len() < 2 {
                    Err(VcfError::BadHeaderLine)
                } else {
                    spec_header_scan(lines, i + 1, version, info, fmt.push((idsegs[1], dsegs[1])))
                }
            }
        } else if has_prefix(l, "#CHROM"@) {
            let cols = spec_split_char(l, '\t');
            let samples = if cols.len() >= 9 {
                cols.skip(9).map_values(|c: Seq<char>| spec_trim(c))
            } else {
                Seq::<Seq<char>>::empty()
            };
            Ok((version, info, fmt, samples, i + 1))
        } else {
            spec_header_scan(lines, i + 1, version, info, fmt)
        }
    }
}

/// The header scan fails only on its own grounds, never with the
/// decompression error.
pub proof fn lemma_header_scan_no_gzip_error(
    lines: Seq<Seq<char>>,
    i: int,
    version: Seq<char>,
    info: Seq<(Seq<char>, Seq<char>)>,
    fmt: Seq<(Seq<char>, Seq<char>)>,
)
    ensures
        !(spec_header_scan(lines, i, version, info, fmt) matches Err(e) && e
            == VcfError::BadGzip),
    decreases lines.len() - i,
{
    if i < lines.len() {
        let l = lines[i];
        if has_prefix(l, "##fileformat="@) {
            let segs = spec_split_char(l, '=');
            if segs.len() >= 2 {
                lemma_header_scan_no_gzip_error(lines, i + 1, spec_trim(segs[1]), info, fmt);
            }
        } else if has_prefix(l, "##INFO"@) {
            let commas = spec_split_char(l, ',');
            let idsegs = spec_split_char(commas[0], '=');
            if idsegs.len() >= 2 && commas.len() >= 4 {
                let dsegs = spec_split_char(commas[3], '=');
                if dsegs.len() >= 2 {
                    lemma_header_scan_no_gzip_error(
                        lines,
                        i + 1,
                        version,
                        info.push((idsegs[1], dsegs[1])),
                        fmt,
                    );
                }
            }
        } else if has_prefix(l, "##FORMAT"@) {
            let commas = spec_split_char(l, ',');
            let idsegs = spec_split_char(commas[0], '=');
            if idsegs.len() >= 2 && commas.len() >= 4 {
                let dsegs = spec_split_char(commas[3], '=');
                if dsegs.len() >= 2 {
                    lemma_header_scan_no_gzip_error(
                        lines,
                        i + 1,
                        version,
                        info,
                        fmt.push((idsegs[1], dsegs[1])),
                    );
                }
            }
        } else if has_prefix(l, "#CHROM"@) {
        } else {
            lemma_header_scan_no_gzip_error(lines, i + 1, version, info, fmt);
        }
    }
}

/// The variant-file reader: the parsed header and the record lines.
#[derive(Debug)]
pub struct VcfParser {
    version: String,
    info: Vec<(String, String)>,
    format: Vec<(String, String)>,
    samples: Vec<String>,
    body: Vec<String>,
}

impl VcfParser {
    /// The file-format version the header declared.
    pub closed spec fn version_model(&self) -> Seq<char> {
        self.version@
    }

    /// The INFO entries of the header.
    pub closed spec fn info_model(&self) -> Seq<(Seq<char>, Seq<char>)> {
        pairs_view(self.info@)
    }

    /// The FORMAT entries of the header.
    pub closed spec fn format_model(&self) -> Seq<(Seq<char>, Seq<char>)> {
        pairs_view(self.format@)
    }

    /// The sample names of the column line.
    pub closed spec fn samples_model(&self) -> Seq<Seq<char>> {
        self.samples.deep_view()
    }

    /// The record lines after the header.
    pub closed spec fn body_model(&self) -> Seq<Seq<char>> {
        self.body.deep_view()
    }

    /// Reads the header off the given lines, returning the version, the
    /// INFO and FORMAT entries, the sample names, and the index of the
    /// first record line.
    #[verifier::loop_isolation(false)]
    pub fn parse_header(lines: &Vec<String>) -> (r: Result<
        (String, Vec<(String, String)>, Vec<(String, String)>, Vec<String>, usize),
        VcfError,
    >)
        ensures
            match r {
                Ok(h) => spec_header_scan(
                    lines.deep_view(),
                    0,
                    Seq::<char>::empty(),
                    Seq::empty(),
                    Seq::empty(),
                ) == Ok::<_, VcfError>(
                    (h.0@, pairs_view(h.1@), pairs_view(h.2@), h.3.deep_view(), h.4 as int),
                ) && h.4 <= lines@.len(),
                Err(e) => spec_header_scan(
                    lines.deep_view(),
                    0,
                    Seq::<char>::empty(),
                    Seq::empty(),
                    Seq::empty(),
                ) matches Err(e2) && e == e2,
            },
    {
        let ghost lv = lines.deep_view();
        let mut version = String::new();
        let mut info: Vec<(String, String)> = Vec::new();
        let mut fmt: Vec<(String, String)> = Vec::new();
        let mut i: usize = 0;
        proof {
            assert(pairs_view(info@) =~= Seq::<(Seq<char>, Seq<char>)>::empty());
            assert(pairs_view(fmt@) =~= Seq::<(Seq<char>, Seq<char>)>::empty());
            assert(lv.len() == lines@.len());
        }
        while i < lines.len()
            invariant
                i <= lines.len(),
                spec_header_scan(lv, 0, Seq::<char>::empty(), Seq::empty(), Seq::empty())
                    == spec_header_scan(
                    lv,
                    i as int,
                    version@,
                    pairs_view(info@),
                    pairs_view(fmt@),
                ),
            decreases lines.len() - i,
        {
            proof {
                assert(lv[i as int] == lines@[i as int]@);
            }
            let cs = chars_of(lines[i].as_str());
            if str_has_prefix(&cs, "##fileformat=") {
                let segs = split_char_chars(&cs, '=');
                proof {
                    assert(segs.deep_view().len() == segs@.len());
                }
                if segs.len() < 2 {
                    return Err(VcfError::BadHeaderLine);
                }
                proof {
                    assert(segs.deep_view()[1] == segs@[1]@);
                }
                let t = trim_chars(&segs[1]);
                version = string_from_chars(&t);
            } else if str_has_prefix(&cs, "##INFO") {
                match Self::read_meta_entry(&cs) {
                    Ok(pair) => {
                        let ghost prev = info@;
                        info.push(pair);
                        proof {
                            assert(pairs_view(info@) =~= pairs_view(prev).push(
                                (info@[prev.len() as int].0@, info@[prev.len() as int].1@),
                            ));
                        }
                    },
                    Err(e) => {
                        return Err(e);
                    },
                }
            } else if str_has_prefix(&cs, "##FORMAT") {
                match Self::read_meta_entry(&cs) {
                    Ok(pair) => {
                        let ghost prev = fmt@;
                        fmt.push(pair);
                        proof {
                            assert(pairs_view(fmt@) =~= pairs_view(prev).push(
                                (fmt@[prev.len() as int].0@, fmt@[prev.len() as int].1@),
                            ));
                        }
                    },
                    Err(e) => {
                        return Err(e);
                    },
                }
            } else if str_has_prefix(&cs, "#CHROM") {
                let cols = split_char_chars(&cs, '\t');
                let ghost cv = cols.deep_view();
                proof {
                    assert(cv.len() == cols@.len());
                }
                let mut samples: Vec<String> = Vec::new();
                if cols.len() >= 9 {
                    let mut k: usize = 9;
                    proof {
                        assert(samples.deep_view() =~~= cv.skip(9).map_values(
                            |c: Seq<char>| spec_trim(c),
                        ).take(0));
                    }
                    while k < cols.len()
                        invariant
                            9 <= k <= cols.len(),
                            samples.deep_view() =~~= cv.skip(9).map_values(
                                |c: Seq<char>| spec_trim(c),
                            ).take(k - 9),
                        decreases cols.len() - k,
                    {
                        proof {
                            assert(cv[k as int] == cols@[k as int]@);
                            assert(cv.skip(9)[k - 9] == cv[k as int]);
                        }
                        let t = trim_chars(&cols[k]);
                        let ts = string_from_chars(&t);
                        crate::text::push_string(&mut samples, ts);
                        proof {
                            assert(samples.deep_view() =~~= cv.skip(9).map_values(
                                |c: Seq<char>| spec_trim(c),
                            ).take(k - 9 + 1));
                        }
                        k += 1;
                    }
                    proof {
                        let mapped = cv.skip(9).map_values(|c: Seq<char>| spec_trim(c));
                        assert(mapped.take(mapped.len() as int) =~= mapped);
                    }
                }
                proof {
                    if cv.len() < 9 {
                        assert(samples.deep_view() =~~= Seq::<Seq<char>>::empty());
                    }
                    assert(samples.deep_view() =~~= (if cv.len() >= 9 {
                        cv.skip(9).map_values(|c: Seq<char>| spec_trim(c))
                    } else {
                        Seq::<Seq<char>>::empty()
                    }));
                }
                return Ok((version, info, fmt, samples, i + 1));
            }
            i += 1;
        }
        Err(VcfError::MissingHeader)
    }

    /// Reads one `##INFO` or `##FORMAT` line's identifier and
    /// description, positionally off its commas and equals signs.
    fn read_meta_entry(cs: &Vec<char>) -> (r: Result<(String, String), VcfError>)
        ensures
            ({
                let commas = spec_split_char(cs@, ',');
                let idsegs = spec_split_char(commas[0], '=');
                match r {
                    Ok(p) => idsegs.len() >= 2 && commas.len() >= 4 && {
                        let dsegs = spec_split_char(commas[3], '=');
                        dsegs.len() >= 2 && p.0@ == idsegs[1] && p.1@ == dsegs[1]
                    },
                    Err(e) => e == VcfError::BadHeaderLine && (idsegs.len() < 2 || commas.len()
                        < 4 || spec_split_char(commas[3], '=').len() < 2),
                }
            }),
    {
        let commas = split_char_chars(cs, ',');
        proof {
            assert(commas.deep_view().len() == commas@.len());
            assert(commas.deep_view()[0] == commas@[0]@);
        }
        let idsegs = split_char_chars(&commas[0], '=');
        proof {
            assert(idsegs.deep_view().len() == idsegs@.len());
        }
        if idsegs.len() < 2 {
            return Err(VcfError::BadHeaderLine);
        }
        if commas.len() < 4 {
            return Err(VcfError::BadHeaderLine);
        }
        proof {
            assert(commas.deep_view()[3] == commas@[3]@);
            assert(idsegs.deep_view()[1] == idsegs@[1]@);
        }
        let dsegs = split_char_chars(&commas[3], '=');
        proof {
            assert(dsegs.deep_view().len() == dsegs@.len());
        }
        if dsegs.len() < 2 {
            return Err(VcfError::BadHeaderLine);
        }
        proof {
            assert(dsegs.deep_view()[1] == dsegs@[1]@);
        }
        let id = string_from_chars(&idsegs[1]);
        let desc = string_from_chars(&dsegs[1]);
        Ok((id, desc))
    }

    /// Opens a reader over the text of an uncompressed variant file.
    pub fn from_text(text: &str) -> (r: Result<VcfParser, VcfError>)
        ensures
            match r {
                Ok(p) => spec_header_scan(
                    spec_lines(text@),
                    0,
                    Seq::<char>::empty(),
                    Seq::empty(),
                    Seq::empty(),
                ) matches Ok(h) && {
                    &&& p.version_model() == h.0
                    &&& p.info_model() == h.1
                    &&& p.format_model() == h.2
                    &&& p.samples_model() == h.3
                    &&& p.body_model() == spec_lines(text@).skip(h.4)
                },
                Err(e) => spec_header_scan(
                    spec_lines(text@),
                    0,
                    Seq::<char>::empty(),
                    Seq::empty(),
                    Seq::empty(),
                ) matches Err(e2) && e == e2,
            },
    {
        let lines = split_lines(text);
        let ghost lv = lines.deep_view();
        proof {
            assert(lv.len() == lines@.len());
        }
        match Self::parse_header(&lines) {
            Err(e) => Err(e),
            Ok((version, info, format, samples, start)) => {
                let mut body: Vec<String> = Vec::new();
                let mut k: usize = start;
                proof {
                    assert(start <= lv.len());
                    assert(body.deep_view() =~~= lv.subrange(start as int, start as int));
                }
                while k < lines.len()
                    invariant
                        start <= k <= lines.len(),
                        lv == lines.deep_view(),
                        lv.len() == lines@.len(),
                        body.deep_view() =~~= lv.subrange(start as int, k as int),
                    decreases lines.len() - k,
                {
                    proof {
                        assert(lv[k as int] == lines@[k as int]@);
                    }
                    let c = chars_of(lines[k].as_str());
                    let ls = string_from_chars(&c);
                    crate::text::push_string(&mut body, ls);
                    proof {
                        assert(body.deep_view() =~~= lv.subrange(start as int, k + 1 as int));
                    }
                    k += 1;
                }
                proof {
                    assert(lv.subrange(start as int, lv.len() as int) =~= lv.skip(start as int));
                }
                Ok(VcfParser { version, info, format, samples, body })
            },
        }
    }

    /// Opens a reader over a whole-file-compressed variant file.
    pub fn from_gzip(data: &Vec<u8>) -> (r: Result<VcfParser, VcfError>)
        ensures
            gunzip_all_of(data@) is None ==> (r matches Err(e) && e == VcfError::BadGzip),
            gunzip_all_of(data@) matches Some(text) ==> match r {
                Ok(p) => spec_header_scan(
                    spec_lines(text),
                    0,
                    Seq::<char>::empty(),
                    Seq::empty(),
                    Seq::empty(),
                ) matches Ok(h) && {
                    &&& p.version_model() == h.0
                    &&& p.info_model() == h.1
                    &&& p.format_model() == h.2
                    &&& p.samples_model() == h.3
                    &&& p.body_model() == spec_lines(text).skip(h.4)
                },
                Err(e) => spec_header_scan(
                    spec_lines(text),
                    0,
                    Seq::<char>::empty(),
                    Seq::empty(),
                    Seq::empty(),
                ) matches Err(e2) && e == e2,
            },
            (r matches Err(e) && e == VcfError::BadGzip) <==> gunzip_all_of(data@) is None,
    {
        match gunzip_multi(data) {
            None => Err(VcfError::BadGzip),
            Some(text) => {
                proof {
                    lemma_header_scan_no_gzip_error(
                        spec_lines(text@),
                        0,
                        Seq::<char>::empty(),
                        Seq::empty(),
                        Seq::empty(),
                    );
                }
                Self::from_text(text.as_str())
            },
        }
    }

    /// The declared file-format version.
    pub fn version(&self) -> (r: &String)
        ensures
            r@ == self.version_model(),
    {
        &self.version
    }

    /// The sample names of the column line.
    pub fn sample_names(&self) -> (r: &Vec<String>)
        ensures
            r.deep_view() == self.samples_model(),
    {
        &self.samples
    }

    /// A cursor over the record lines.
    pub fn records(&self) -> (r: VcfRecords)
        ensures
            r.body_model() == self.body_model(),
            r.idx_model() == 0,
    {
        VcfRecords { parser: self, idx: 0 }
    }
}

// ---------------------------------------------------------------------------
// The record cursor
// ---------------------------------------------------------------------------
/// The index of the first record line at or after `i`: lines opening
/// with `#` are skipped.
pub open spec fn spec_next_record_idx(body: Seq<Seq<char>>, i: int) -> Option<int>
    decreases body.len() - i,
{
    if i >= body.len() {
        None
    } else if body[i].len() > 0 && body[i][0] == '#' {
        spec_next_record_idx(body, i + 1)
    } else {
        Some(i)
    }
}

/// A forward-only cursor over a reader's record lines.
pub struct VcfRecords<'a> {
    parser: &'a VcfParser,
    idx: usize,
}

impl<'a> VcfRecords<'a> {
    /// The record lines walked over.
    pub closed spec fn body_model(&self) -> Seq<Seq<char>> {
        self.parser.body_model()
    }

    /// The cursor's position.
    pub closed spec fn idx_model(&self) -> int {
        self.idx as int
    }

    /// The next record: the first remaining line not opening with `#`,
    /// decoded; nothing once every line is consumed.
    pub fn next(&mut self) -> (r: Option<Result<Record, VcfError>>)
        requires
            old(self).idx_model() <= old(self).body_model().len(),
        ensures
            final(self).body_model() == old(self).body_model(),
            match r {
                None => spec_next_record_idx(old(self).body_model(), old(self).idx_model())
                    is None && final(self).idx_model() == old(self).body_model().len(),
                Some(res) => spec_next_record_idx(old(self).body_model(), old(self).idx_model())
                    matches Some(j) && final(self).idx_model() == j + 1 && (match spec_parse_record(
                    old(self).body_model()[j],
                ) {
                    Ok(rm) => res matches Ok(rec) && rec@ == rm,
                    Err(e) => res matches Err(e2) && e2 == e,
                }),
            },
    {
        let ghost bv = self.parser.body_model();
        proof {
            assert(bv.len() == self.parser.body@.len());
        }
        while self.idx < self.parser.body.len()
            invariant
                self.idx <= self.parser.body@.len(),
                bv == self.parser.body_model(),
                bv.len() == self.parser.body@.len(),
                spec_next_record_idx(bv, old(self).idx_model()) == spec_next_record_idx(
                    bv,
                    self.idx as int,
                ),
                self.parser == old(self).parser,
            decreases self.parser.body@.len() - self.idx,
        {
            proof {
                assert(bv[self.idx as int] == self.parser.body@[self.idx as int]@);
            }
            let line = &self.parser.body[self.idx];
            let cs = chars_of(line.as_str());
            if cs.len() > 0 && cs[0] == '#' {
                self.idx = self.idx + 1;
            } else {
                let ghost j = self.idx as int;
                self.idx = self.idx + 1;
                let res = parse_record(line.as_str());
                return Some(res);
            }
        }
        None
    }
}

} // verus!
