//! Removing reference indels: dropping from every sequence of a block
//! the alignment columns where the reference (first) sequence holds a
//! gap.
use vstd::prelude::*;

use crate::maf::MafLine;
use crate::maf::MafLineModel;
use crate::maf::maf_lines_view;
use crate::text::chars_of;
use crate::text::string_from_chars;

verus! {

/// A block gathered for indel removal: the reference species, the
/// classified lines, and the reference interval of the first line.
#[derive(Debug)]
pub struct AlignmentBlock {
    pub reference: String,
    pub lines: Vec<MafLine>,
    pub seqid: String,
    pub start: u64,
}

/// The text left after dropping, from position `j` on, the columns
/// where the reference text holds a gap; positions past the reference
/// text's end are kept.
pub open spec fn spec_strip_cols(text: Seq<char>, rt: Seq<char>, j: int) -> Seq<char>
    decreases text.len() - j,
{
    if j >= text.len() {
        Seq::<char>::empty()
    } else {
        (if j < rt.len() && rt[j] == '-' {
            Seq::<char>::empty()
        } else {
            seq![text[j]]
        }) + spec_strip_cols(text, rt, j + 1)
    }
}

/// One line after column removal: a sequence line's text is stripped,
/// every other line is unchanged.
pub open spec fn spec_strip_line(m: MafLineModel, rt: Seq<char>) -> MafLineModel {
    match m {
        MafLineModel::SequenceLine(sp, id, st, ln, sd, sz, tx) => MafLineModel::SequenceLine(
            sp,
            id,
            st,
            ln,
            sd,
            sz,
            spec_strip_cols(tx, rt, 0),
        ),
        _ => m,
    }
}

/// The gap columns of the reference (first) line's text.
pub open spec fn spec_ref_text(m: MafLineModel) -> Seq<char> {
    match m {
        MafLineModel::SequenceLine(_, _, _, _, _, _, tx) => tx,
        _ => Seq::<char>::empty(),
    }
}

impl AlignmentBlock {
    /// Appends one line.
    pub fn add_line(&mut self, line: MafLine)
        ensures
            maf_lines_view(final(self).lines@) == maf_lines_view(old(self).lines@).push(line@),
            final(self).lines@.len() == old(self).lines@.len() + 1,
            final(self).reference@ == old(self).reference@,
            final(self).seqid@ == old(self).seqid@,
            final(self).start == old(self).start,
    {
        let ghost prev = self.lines@;
        self.lines.push(line);
        proof {
            assert(maf_lines_view(self.lines@) =~= maf_lines_view(prev).push(self.lines@[
                prev.len() as int]@));
        }
    }

    /// How many lines the block holds.
    pub fn len(&self) -> (r: usize)
        ensures
            r == self.lines@.len(),
    {
        self.lines.len()
    }

    /// Whether the block holds no lines.
    pub fn is_empty(&self) -> (r: bool)
        ensures
            r == (self.lines@.len() == 0),
    {
        self.lines.is_empty()
    }

    /// Drops from every sequence line the columns where the reference
    /// (first) line's text holds a gap.
    #[verifier::loop_isolation(false)]
    pub fn remove_ref_indels(&mut self)
        requires
            old(self).lines@.len() > 0,
            maf_lines_view(old(self).lines@)[0] is SequenceLine,
        ensures
            final(self).lines@.len() == old(self).lines@.len(),
            maf_lines_view(final(self).lines@) == maf_lines_view(old(self).lines@).map_values(
                |m: MafLineModel|
                    spec_strip_line(m, spec_ref_text(maf_lines_view(old(self).lines@)[0])),
            ),
            final(self).reference@ == old(self).reference@,
            final(self).seqid@ == old(self).seqid@,
            final(self).start == old(self).start,
    {
        let ghost lv = maf_lines_view(self.lines@);
        let ghost rt_m = spec_ref_text(lv[0]);
        let rt: Vec<char> = match &self.lines[0] {
            MafLine::SequenceLine(_, _, _, _, _, _, tx) => chars_of(tx.as_str()),
            _ => Vec::new(),
        };
        proof {
            assert(rt@ == rt_m);
        }
        let mut out: Vec<MafLine> = Vec::new();
        let mut i: usize = 0;
        while i < self.lines.len()
            invariant
                i <= self.lines@.len(),
                rt@ == rt_m,
                self.lines@ == old(self).lines@,
                maf_lines_view(out@) =~= lv.map_values(
                    |m: MafLineModel| spec_strip_line(m, rt_m),
                ).take(i as int),
            decreases self.lines@.len() - i,
        {
            let replaced: MafLine = match &self.lines[i] {
                MafLine::SequenceLine(sp, id, st, ln, sd, sz, tx) => {
                    let tc = chars_of(tx.as_str());
                    let mut kept: Vec<char> = Vec::new();
                    let mut j: usize = 0;
                    proof {
                        assert(kept@ + spec_strip_cols(tc@, rt@, 0) =~= spec_strip_cols(
                            tc@,
                            rt@,
                            0,
                        ));
                    }
                    while j < tc.len()
                        invariant
                            j <= tc@.len(),
                            rt@ == rt_m,
                            kept@ + spec_strip_cols(tc@, rt@, j as int) =~= spec_strip_cols(
                                tc@,
                                rt@,
                                0,
                            ),
                        decreases tc@.len() - j,
                    {
                        if !(j < rt.len() && rt[j] == '-') {
                            kept.push(tc[j]);
                        }
                        proof {
                            assert(kept@ + spec_strip_cols(tc@, rt@, j + 1 as int)
                                =~= spec_strip_cols(tc@, rt@, 0));
                        }
                        j += 1;
                    }
                    proof {
                        assert(spec_strip_cols(tc@, rt@, tc@.len() as int)
                            =~= Seq::<char>::empty());
                        assert(kept@ =~= spec_strip_cols(tc@, rt@, 0));
                    }
                    let new_text = string_from_chars(&kept);
                    MafLine::SequenceLine(
                        sp.clone(),
                        id.clone(),
                        *st,
                        *ln,
                        *sd,
                        *sz,
                        new_text,
                    )
                },
                other => other.duplicate(),
            };
            proof {
                assert(replaced@ == spec_strip_line(lv[i as int], rt_m));
            }
            let ghost prev = out@;
            out.push(replaced);
            proof {
                assert(maf_lines_view(out@) =~= maf_lines_view(prev).push(out@[
                    prev.len() as int]@));
                assert(maf_lines_view(out@) =~= lv.map_values(
                    |m: MafLineModel| spec_strip_line(m, rt_m),
                ).take(i + 1 as int));
            }
            i += 1;
        }
        proof {
            let mapped = lv.map_values(|m: MafLineModel| spec_strip_line(m, rt_m));
            assert(mapped.take(mapped.len() as int) =~= mapped);
        }
        self.lines = out;
    }
}

} // verus!
