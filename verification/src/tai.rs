//! The block index: an ordered, per-chromosome list of
//! (uncompressed block start, compressed file offset) checkpoints,
//! loaded from a tab-delimited side file and used to find the block at
//! or before a requested coordinate.
use vstd::prelude::*;

use crate::text::chars_of;
use crate::text::spec_parse_u64;
use crate::text::spec_split_char;
use crate::text::spec_split_once;
use crate::text::spec_trim;
use crate::text::split_char_chars;
use crate::text::split_once_chars;
use crate::text::string_from_chars;
use crate::text::str_equal;
use crate::text::trim_chars;
use crate::text::parse_u64_chars;

verus! {

/// One index checkpoint: an uncompressed block-start coordinate and the
/// compressed file offset of its block.
#[derive(Debug)]
pub struct TaiEntry {
    block_start: u64,
    offset: u64,
}

impl View for TaiEntry {
    type V = (u64, u64);

    closed spec fn view(&self) -> (u64, u64) {
        (self.block_start, self.offset)
    }
}

/// The block index: chromosome names each carrying their checkpoint
/// list, in first-appearance order with no name repeated.
#[derive(Debug)]
pub struct TaiIndex {
    entries: Vec<(String, Vec<TaiEntry>)>,
}

/// The models of the index groups.
pub open spec fn groups_view(v: Seq<(String, Vec<TaiEntry>)>) -> Seq<
    (Seq<char>, Seq<(u64, u64)>),
> {
    v.map_values(|p: (String, Vec<TaiEntry>)| (p.0@, p.1@.map_values(|e: TaiEntry| e@)))
}

impl View for TaiIndex {
    type V = Seq<(Seq<char>, Seq<(u64, u64)>)>;

    closed spec fn view(&self) -> Seq<(Seq<char>, Seq<(u64, u64)>)> {
        groups_view(self.entries@)
    }
}

/// The first group at or after `i` whose name is `key`.
pub open spec fn spec_key_idx(
    m: Seq<(Seq<char>, Seq<(u64, u64)>)>,
    key: Seq<char>,
    i: int,
) -> Option<int>
    decreases m.len() - i,
{
    if i >= m.len() {
        None
    } else if m[i].0 == key {
        Some(i)
    } else {
        spec_key_idx(m, key, i + 1)
    }
}

/// The index after recording one checkpoint under `key`: appended to
/// the first group of that name, or opening a new group at the end.
pub open spec fn spec_tai_insert(
    m: Seq<(Seq<char>, Seq<(u64, u64)>)>,
    key: Seq<char>,
    e: (u64, u64),
) -> Seq<(Seq<char>, Seq<(u64, u64)>)> {
    match spec_key_idx(m, key, 0) {
        Some(i) => m.update(i, (m[i].0, m[i].1.push(e))),
        None => m.push((key, seq![e])),
    }
}

/// The chromosome a side-file label names: the part after the first
/// dot of a `species.chromosome` label, or the whole label without one.
pub open spec fn spec_label_chrom(label: Seq<char>) -> Seq<char> {
    match spec_split_once(label, '.') {
        Some(p) => p.1,
        None => label,
    }
}

/// The index built from the side file's lines.  Blank lines and lines
/// of fewer than three tab-separated fields are skipped; a first field
/// of `*` inherits the previous line's chromosome; numeric fields that
/// fail to read count as zero.
pub open spec fn spec_tai_from_lines(
    lines: Seq<Seq<char>>,
    current: Seq<char>,
    m: Seq<(Seq<char>, Seq<(u64, u64)>)>,
) -> Seq<(Seq<char>, Seq<(u64, u64)>)>
    decreases lines.len(),
{
    if lines.len() == 0 {
        m
    } else {
        let l = lines[0];
        if spec_trim(l).len() == 0 {
            spec_tai_from_lines(lines.skip(1), current, m)
        } else {
            let fields = spec_split_char(l, '\t');
            if fields.len() < 3 {
                spec_tai_from_lines(lines.skip(1), current, m)
            } else {
                let next = if fields[0] == seq!['*'] {
                    current
                } else {
                    spec_label_chrom(fields[0])
                };
                let bs = match spec_parse_u64(fields[1]) {
                    Some(v) => v,
                    None => 0u64,
                };
                let off = match spec_parse_u64(fields[2]) {
                    Some(v) => v,
                    None => 0u64,
                };
                spec_tai_from_lines(lines.skip(1), next, spec_tai_insert(m, next, (bs, off)))
            }
        }
    }
}

/// The checkpoint the scan returns: walking the list in order, the last
/// entry so far whose block start is at or before `pos`, stopping at
/// the first entry past `pos`.
pub open spec fn spec_seek_scan(
    entries: Seq<(u64, u64)>,
    pos: u64,
    i: int,
    best: Option<(u64, u64)>,
) -> Option<(u64, u64)>
    decreases entries.len() - i,
{
    if i >= entries.len() {
        best
    } else if entries[i].0 <= pos {
        spec_seek_scan(entries, pos, i + 1, Some(entries[i]))
    } else {
        best
    }
}

/// What `get_seek_info` returns: nothing for an unknown chromosome,
/// else the scan over that chromosome's checkpoints.
pub open spec fn spec_get_seek_info(
    m: Seq<(Seq<char>, Seq<(u64, u64)>)>,
    contig: Seq<char>,
    pos: u64,
) -> Option<(u64, u64)> {
    match spec_key_idx(m, contig, 0) {
        None => None,
        Some(i) => spec_seek_scan(m[i].1, pos, 0, None),
    }
}

impl TaiIndex {
    /// Builds the index from the side file's lines.
    pub fn from_lines(lines: &Vec<String>) -> (r: TaiIndex)
        ensures
            r@ == spec_tai_from_lines(lines.deep_view(), Seq::<char>::empty(), Seq::empty()),
    {
        let ghost lv = lines.deep_view();
        let mut entries: Vec<(String, Vec<TaiEntry>)> = Vec::new();
        let mut current = String::new();
        let mut i: usize = 0;
        proof {
            assert(lv.skip(0) =~= lv);
            assert(groups_view(entries@) =~= Seq::<(Seq<char>, Seq<(u64, u64)>)>::empty());
        }
        while i < lines.len()
            invariant
                i <= lines.len(),
                lv == lines.deep_view(),
                lv.len() == lines@.len(),
                spec_tai_from_lines(lv, Seq::<char>::empty(), Seq::empty())
                    == spec_tai_from_lines(lv.skip(i as int), current@, groups_view(entries@)),
            decreases lines.len() - i,
        {
            proof {
                assert(lv.skip(i as int)[0] == lv[i as int]);
                assert(lv[i as int] == lines@[i as int]@);
                assert(lv.skip(i as int).skip(1) =~= lv.skip(i + 1 as int));
            }
            let cs = chars_of(lines[i].as_str());
            let trimmed = trim_chars(&cs);
            if trimmed.len() == 0 {
                i += 1;
                continue;
            }
            let fields = split_char_chars(&cs, '\t');
            proof {
                assert(fields.deep_view() == spec_split_char(lv[i as int], '\t'));
                assert(fields.deep_view().len() == fields@.len());
            }
            if fields.len() < 3 {
                i += 1;
                continue;
            }
            proof {
                assert(fields.deep_view()[0] == fields@[0]@);
                assert(fields.deep_view()[1] == fields@[1]@);
                assert(fields.deep_view()[2] == fields@[2]@);
            }
            if !crate::text::is_single_char(&fields[0], '*') {
                match split_once_chars(&fields[0], '.') {
                    Some(p) => {
                        current = string_from_chars(&p.1);
                    },
                    None => {
                        current = string_from_chars(&fields[0]);
                    },
                }
            }
            let bs = match parse_u64_chars(&fields[1]) {
                Some(v) => v,
                None => 0,
            };
            let off = match parse_u64_chars(&fields[2]) {
                Some(v) => v,
                None => 0,
            };
            let key_copy = current.clone();
            Self::record(&mut entries, key_copy, TaiEntry { block_start: bs, offset: off });
            i += 1;
        }
        proof {
            assert(lv.skip(lv.len() as int) =~= Seq::<Seq<char>>::empty());
        }
        TaiIndex { entries }
    }

    /// Appends one checkpoint to its chromosome's group, opening the
    /// group when the chromosome is new.
    fn record(entries: &mut Vec<(String, Vec<TaiEntry>)>, key: String, e: TaiEntry)
        ensures
            groups_view(final(entries)@) == spec_tai_insert(
                groups_view(old(entries)@),
                key@,
                e@,
            ),
    {
        let ghost m = groups_view(entries@);
        let mut i: usize = 0;
        while i < entries.len()
            invariant
                i <= entries.len(),
                entries@ == old(entries)@,
                m == groups_view(entries@),
                m.len() == entries@.len(),
                spec_key_idx(m, key@, 0) == spec_key_idx(m, key@, i as int),
            decreases entries.len() - i,
        {
            if str_equal(&entries[i].0, key.as_str()) {
                proof {
                    assert(m[i as int].0 == entries@[i as int].0@);
                    assert(spec_key_idx(m, key@, i as int) == Some(i as int));
                }
                let mut group = entries.remove(i);
                group.1.push(e);
                entries.insert(i, group);
                proof {
                    assert(groups_view(entries@) =~~= m.update(i as int, (m[i as int].0, m[
                        i as int].1.push(e@))));
                }
                return ;
            }
            i += 1;
        }
        entries.push((key, Vec::new()));
        let n = entries.len() - 1;
        let mut group = entries.remove(n);
        group.1.push(e);
        entries.insert(n, group);
        proof {
            assert(groups_view(entries@) =~~= m.push((key@, seq![e@])));
        }
    }

    /// The checkpoint for the block containing `pos` on `contig`: the
    /// last entry at or before `pos`, read off the pre-sorted list by
    /// stopping at the first entry past `pos`; nothing when the
    /// chromosome is absent or no entry qualifies.
    pub fn get_seek_info(&self, contig: &str, pos: u64) -> (r: Option<(u64, u64)>)
        ensures
            r == spec_get_seek_info(self@, contig@, pos),
    {
        let ghost m = self@;
        let mut i: usize = 0;
        while i < self.entries.len()
            invariant
                i <= self.entries.len(),
                m == self@,
                m.len() == self.entries@.len(),
                spec_key_idx(m, contig@, 0) == spec_key_idx(m, contig@, i as int),
            decreases self.entries.len() - i,
        {
            if str_equal(&self.entries[i].0, contig) {
                let group = &self.entries[i].1;
                let ghost ev = m[i as int].1;
                proof {
                    assert(ev.len() == group@.len());
                }
                let mut k: usize = 0;
                let mut best: Option<(u64, u64)> = None;
                while k < group.len() && group[k].block_start <= pos
                    invariant
                        k <= group.len(),
                        ev == m[i as int].1,
                        ev.len() == group@.len(),
                        m == self@,
                        i < self.entries@.len(),
                        group == &self.entries@[i as int].1,
                        forall|j: int| 0 <= j < ev.len() ==> ev[j] == group@[j]@,
                        spec_seek_scan(ev, pos, 0, None) == spec_seek_scan(
                            ev,
                            pos,
                            k as int,
                            best,
                        ),
                    decreases group.len() - k,
                {
                    best = Some((group[k].block_start, group[k].offset));
                    k += 1;
                }
                return best;
            }
            i += 1;
        }
        None
    }
}

} // verus!
