//! The running coordinate table: one optional coordinate per row,
//! folded forward by each decoded column's operations.  A row an
//! operation names takes that operation's effect; every other row
//! holding a coordinate advances implicitly by exactly one base.
use vstd::prelude::*;

use crate::maf::ContainsResult;
use crate::taf::CoordModel;
use crate::taf::Coordinate;
use crate::taf::CoordinateOp;
use crate::taf::DecodeError;
use crate::taf::OpModel;
use crate::taf::TafColumn;
use crate::taf::ColumnModel;
use crate::taf::ops_view;
use crate::text::str_equal;

verus! {

// ---------------------------------------------------------------------------
// Views of the two per-row tables
// ---------------------------------------------------------------------------
/// The models of a coordinate table.
pub open spec fn coords_view(v: Seq<Option<Coordinate>>) -> Seq<Option<CoordModel>> {
    v.map_values(
        |c: Option<Coordinate>|
            match c {
                Some(x) => Some(x@),
                None => None,
            },
    )
}

/// The views of a species table.
pub open spec fn species_view(v: Seq<Option<String>>) -> Seq<Option<Seq<char>>> {
    v.map_values(
        |s: Option<String>|
            match s {
                Some(x) => Some(x@),
                None => None,
            },
    )
}

// ---------------------------------------------------------------------------
// One operation's effect
// ---------------------------------------------------------------------------
/// Whether `op` explicitly touches `row` in a table of `len` rows.
pub open spec fn op_touches(op: OpModel, row: int, len: int) -> bool {
    match op {
        OpModel::Insertion { row: r, coord } => coord is Some && r == row && r < len,
        OpModel::Substitution { row: r, coord } => coord is Some && r == row && r < len,
        OpModel::Deletion { row: r } => r == row && r < len,
        OpModel::Gap { row: r, .. } => r == row && r < len,
        OpModel::GapString { row: r, .. } => r == row && r < len,
    }
}

/// Whether any operation of the list touches `row`.
pub open spec fn spec_touched(ops: Seq<OpModel>, row: int, len: int) -> bool {
    exists|j: int| 0 <= j < ops.len() && op_touches(#[trigger] ops[j], row, len)
}

/// One operation's effect on the coordinate table: an insertion or
/// substitution replaces the row's coordinate outright, a deletion
/// clears it for this column, and a gap advances it by the gap's length
/// (a gap on a row with no coordinate is a no-op).
pub open spec fn apply_op_co(co: Seq<Option<CoordModel>>, op: OpModel) -> Seq<
    Option<CoordModel>,
> {
    match op {
        OpModel::Insertion { row, coord } => match coord {
            Some(c) => if (row as int) < co.len() {
                co.update(row as int, Some(c))
            } else {
                co
            },
            None => co,
        },
        OpModel::Substitution { row, coord } => match coord {
            Some(c) => if (row as int) < co.len() {
                co.update(row as int, Some(c))
            } else {
                co
            },
            None => co,
        },
        OpModel::Deletion { row } => if (row as int) < co.len() {
            co.update(row as int, None)
        } else {
            co
        },
        OpModel::Gap { row, gap_length } => if (row as int) < co.len() {
            match co[row as int] {
                Some(c) => co.update(
                    row as int,
                    Some(CoordModel { offset: c.offset + gap_length, ..c }),
                ),
                None => co,
            }
        } else {
            co
        },
        OpModel::GapString { row, gap_string } => if (row as int) < co.len() {
            match co[row as int] {
                Some(c) => co.update(
                    row as int,
                    Some(CoordModel { offset: c.offset + gap_string.len(), ..c }),
                ),
                None => co,
            }
        } else {
            co
        },
    }
}

/// One operation's effect on the species table: only an insertion or
/// substitution renames a row.
pub open spec fn apply_op_sp(sp: Seq<Option<Seq<char>>>, op: OpModel) -> Seq<
    Option<Seq<char>>,
> {
    match op {
        OpModel::Insertion { row, coord } => match coord {
            Some(c) => if (row as int) < sp.len() {
                sp.update(row as int, Some(c.species))
            } else {
                sp
            },
            None => sp,
        },
        OpModel::Substitution { row, coord } => match coord {
            Some(c) => if (row as int) < sp.len() {
                sp.update(row as int, Some(c.species))
            } else {
                sp
            },
            None => sp,
        },
        _ => sp,
    }
}

/// Whether one operation's arithmetic stays within `u64`.
pub open spec fn op_ok(co: Seq<Option<CoordModel>>, op: OpModel) -> bool {
    match op {
        OpModel::Gap { row, gap_length } => if (row as int) < co.len() {
            match co[row as int] {
                Some(c) => c.offset + gap_length <= u64::MAX,
                None => true,
            }
        } else {
            true
        },
        OpModel::GapString { row, gap_string } => if (row as int) < co.len() {
            match co[row as int] {
                Some(c) => c.offset + gap_string.len() <= u64::MAX,
                None => true,
            }
        } else {
            true
        },
        _ => true,
    }
}

// ---------------------------------------------------------------------------
// The whole list of operations, in document order
// ---------------------------------------------------------------------------
/// The coordinate table after every operation, applied in order.
pub open spec fn apply_ops_co(co: Seq<Option<CoordModel>>, ops: Seq<OpModel>) -> Seq<
    Option<CoordModel>,
>
    decreases ops.len(),
{
    if ops.len() <= 0 {
        co
    } else {
        apply_ops_co(apply_op_co(co, ops[0]), ops.skip(1))
    }
}

/// The species table after every operation, applied in order.
pub open spec fn apply_ops_sp(sp: Seq<Option<Seq<char>>>, ops: Seq<OpModel>) -> Seq<
    Option<Seq<char>>,
>
    decreases ops.len(),
{
    if ops.len() <= 0 {
        sp
    } else {
        apply_ops_sp(apply_op_sp(sp, ops[0]), ops.skip(1))
    }
}

/// Whether every operation's arithmetic stays within `u64`.
pub open spec fn apply_ops_ok(co: Seq<Option<CoordModel>>, ops: Seq<OpModel>) -> bool
    decreases ops.len(),
{
    if ops.len() <= 0 {
        true
    } else {
        op_ok(co, ops[0]) && apply_ops_ok(apply_op_co(co, ops[0]), ops.skip(1))
    }
}

/// A coordinate advanced by one base.
pub open spec fn bump(c: Option<CoordModel>) -> Option<CoordModel> {
    match c {
        Some(x) => Some(CoordModel { offset: x.offset + 1, ..x }),
        None => None,
    }
}

/// The coordinate table after one column: the operations' effects, then
/// an implicit single-base advance of every untouched row that holds a
/// coordinate.
pub open spec fn spec_fold_coords(co: Seq<Option<CoordModel>>, ops: Seq<OpModel>) -> Seq<
    Option<CoordModel>,
> {
    let applied = apply_ops_co(co, ops);
    Seq::new(
        co.len(),
        |r: int|
            if spec_touched(ops, r, co.len() as int) {
                applied[r]
            } else {
                bump(applied[r])
            },
    )
}

/// The species table after one column.
pub open spec fn spec_fold_species(sp: Seq<Option<Seq<char>>>, ops: Seq<OpModel>) -> Seq<
    Option<Seq<char>>,
> {
    apply_ops_sp(sp, ops)
}

/// Whether the whole fold stays within `u64`: each operation's
/// arithmetic and each implicit advance.
pub open spec fn spec_fold_ok(co: Seq<Option<CoordModel>>, ops: Seq<OpModel>) -> bool {
    apply_ops_ok(co, ops) && (forall|r: int|
        0 <= r < co.len() && !spec_touched(ops, r, co.len() as int) ==> match apply_ops_co(
            co,
            ops,
        )[r] {
            Some(c) => c.offset + 1 <= u64::MAX,
            None => true,
        })
}

// ---------------------------------------------------------------------------
// Facts about the fold
// ---------------------------------------------------------------------------
/// One operation preserves the table's length.
pub proof fn lemma_apply_op_co_len(co: Seq<Option<CoordModel>>, op: OpModel)
    ensures
        apply_op_co(co, op).len() == co.len(),
{
}

/// The operation list preserves the table's length.
pub proof fn lemma_apply_ops_co_len(co: Seq<Option<CoordModel>>, ops: Seq<OpModel>)
    ensures
        apply_ops_co(co, ops).len() == co.len(),
    decreases ops.len(),
{
    if ops.len() > 0 {
        lemma_apply_ops_co_len(apply_op_co(co, ops[0]), ops.skip(1));
    }
}

/// The operation list preserves the species table's length.
pub proof fn lemma_apply_ops_sp_len(sp: Seq<Option<Seq<char>>>, ops: Seq<OpModel>)
    ensures
        apply_ops_sp(sp, ops).len() == sp.len(),
    decreases ops.len(),
{
    if ops.len() > 0 {
        lemma_apply_ops_sp_len(apply_op_sp(sp, ops[0]), ops.skip(1));
    }
}

/// Appending one operation extends which rows count as touched.
pub proof fn lemma_touched_push(ops: Seq<OpModel>, op: OpModel, row: int, len: int)
    ensures
        spec_touched(ops.push(op), row, len) == (spec_touched(ops, row, len) || op_touches(
            op,
            row,
            len,
        )),
{
    if spec_touched(ops.push(op), row, len) {
        let j = choose|j: int|
            0 <= j < ops.push(op).len() && op_touches(#[trigger] ops.push(op)[j], row, len);
        if j < ops.len() {
            assert(ops.push(op)[j] == ops[j]);
            assert(spec_touched(ops, row, len));
        } else {
            assert(ops.push(op)[j] == op);
        }
    }
    if spec_touched(ops, row, len) {
        let j = choose|j: int| 0 <= j < ops.len() && op_touches(#[trigger] ops[j], row, len);
        assert(ops.push(op)[j] == ops[j]);
        assert(op_touches(ops.push(op)[j], row, len));
    }
    if op_touches(op, row, len) {
        assert(op_touches(ops.push(op)[ops.len() as int], row, len));
    }
}

/// An operation list that does not touch a row leaves that row's
/// coordinate unchanged.
pub proof fn lemma_apply_ops_untouched(co: Seq<Option<CoordModel>>, ops: Seq<OpModel>, r: int)
    requires
        0 <= r < co.len(),
        !spec_touched(ops, r, co.len() as int),
    ensures
        apply_ops_co(co, ops)[r] == co[r],
    decreases ops.len(),
{
    if ops.len() > 0 {
        assert(!op_touches(ops[0], r, co.len() as int));
        let co1 = apply_op_co(co, ops[0]);
        assert(co1[r] == co[r]);
        assert forall|j: int| 0 <= j < ops.skip(1).len() implies !op_touches(
            #[trigger] ops.skip(1)[j],
            r,
            co1.len() as int,
        ) by {
            assert(ops.skip(1)[j] == ops[j + 1]);
        }
        lemma_apply_ops_untouched(co1, ops.skip(1), r);
    }
}

/// Law: the coordinate fold is a function of the starting tables and
/// the ordered operation list alone; equal inputs always give equal
/// results, whatever order any internal bookkeeping uses.
pub proof fn lemma_coordinate_fold_deterministic(
    sp1: Seq<Option<Seq<char>>>,
    co1: Seq<Option<CoordModel>>,
    ops1: Seq<OpModel>,
    sp2: Seq<Option<Seq<char>>>,
    co2: Seq<Option<CoordModel>>,
    ops2: Seq<OpModel>,
)
    requires
        sp1 == sp2,
        co1 == co2,
        ops1 == ops2,
    ensures
        spec_fold_species(sp1, ops1) == spec_fold_species(sp2, ops2),
        spec_fold_coords(co1, ops1) == spec_fold_coords(co2, ops2),
{
}

/// Law: a row holding a coordinate that no operation of the column
/// touches advances by exactly one base, keeping everything else.
pub proof fn lemma_implicit_advance(co: Seq<Option<CoordModel>>, ops: Seq<OpModel>, r: int)
    requires
        0 <= r < co.len(),
        !spec_touched(ops, r, co.len() as int),
        co[r] is Some,
    ensures
        spec_fold_coords(co, ops)[r] == bump(co[r]),
{
    lemma_apply_ops_untouched(co, ops, r);
}

/// Law: a row touched by an operation takes exactly the operations'
/// result and is never additionally advanced in the same column.
pub proof fn lemma_exclusive_update(co: Seq<Option<CoordModel>>, ops: Seq<OpModel>, r: int)
    requires
        0 <= r < co.len(),
        spec_touched(ops, r, co.len() as int),
    ensures
        spec_fold_coords(co, ops)[r] == apply_ops_co(co, ops)[r],
{
}

// ---------------------------------------------------------------------------
// A column with its table snapshots
// ---------------------------------------------------------------------------
/// One decoded column together with the species and coordinate tables
/// as of that column, and its running index in the stream.
#[derive(Debug)]
pub struct TafAlignmentColumn {
    pub column: TafColumn,
    pub species_map: Vec<Option<String>>,
    pub coords: Vec<Option<Coordinate>>,
    pub col_index: usize,
}

/// Model of a `TafAlignmentColumn`.
#[verifier::ext_equal]
pub struct AlignedColModel {
    pub column: ColumnModel,
    pub species_map: Seq<Option<Seq<char>>>,
    pub coords: Seq<Option<CoordModel>>,
    pub col_index: int,
}

impl View for TafAlignmentColumn {
    type V = AlignedColModel;

    open spec fn view(&self) -> AlignedColModel {
        AlignedColModel {
            column: self.column@,
            species_map: species_view(self.species_map@),
            coords: coords_view(self.coords@),
            col_index: self.col_index as int,
        }
    }
}

/// True iff the row's tracked offset equals the 0-based form of the
/// 1-based position `pos`.
pub open spec fn spec_ref_matches_pos(
    coords: Seq<Option<CoordModel>>,
    ref_index: int,
    pos: u64,
) -> bool {
    0 <= ref_index < coords.len() && match coords[ref_index] {
        Some(c) => c.offset == pos - 1,
        None => false,
    }
}

/// The first row at or after `i` whose species is `s` and which has an
/// allele in this column.
pub open spec fn spec_allele_row(
    sp: Seq<Option<Seq<char>>>,
    n_alleles: int,
    s: Seq<char>,
    i: int,
) -> Option<int>
    decreases sp.len() - i,
{
    if i >= sp.len() {
        None
    } else if sp[i] == Some(s) && i < n_alleles {
        Some(i)
    } else {
        spec_allele_row(sp, n_alleles, s, i + 1)
    }
}

/// The first row at or after `i` holding a coordinate on chromosome
/// `chrom`.
pub open spec fn spec_chrom_row(
    coords: Seq<Option<CoordModel>>,
    chrom: Seq<char>,
    i: int,
) -> Option<int>
    decreases coords.len() - i,
{
    if i >= coords.len() {
        None
    } else {
        match coords[i] {
            Some(c) => if c.chrom == chrom {
                Some(i)
            } else {
                spec_chrom_row(coords, chrom, i + 1)
            },
            None => spec_chrom_row(coords, chrom, i + 1),
        }
    }
}

/// Where `pos` lies relative to the first coordinate on `chrom`: before
/// its block, after it (taking the sequence length, or one base when
/// none is recorded), inside it, or on no such chromosome at all.
pub open spec fn spec_contains_pos(
    coords: Seq<Option<CoordModel>>,
    chrom: Seq<char>,
    pos: u64,
) -> ContainsResult {
    match spec_chrom_row(coords, chrom, 0) {
        None => ContainsResult::WrongChrom,
        Some(i) => match coords[i] {
            Some(c) => {
                let l: int = match c.sequence_length {
                    Some(x) => x as int,
                    None => 1,
                };
                if (pos as int) < c.offset {
                    ContainsResult::Before
                } else if pos as int >= c.offset + l {
                    ContainsResult::After
                } else {
                    ContainsResult::True
                }
            },
            None => ContainsResult::WrongChrom,
        },
    }
}

impl TafAlignmentColumn {
    /// True iff the row's tracked coordinate offset equals `pos - 1`,
    /// converting the caller's 1-based position to a 0-based offset.
    pub fn ref_matches_pos(&self, ref_index: usize, pos: u64) -> (r: bool)
        ensures
            r == spec_ref_matches_pos(coords_view(self.coords@), ref_index as int, pos),
    {
        if ref_index >= self.coords.len() {
            return false;
        }
        match &self.coords[ref_index] {
            Some(c) => pos >= 1 && c.offset == pos - 1,
            None => false,
        }
    }

    /// The first row (in row order) whose tracked species equals the
    /// argument, together with its allele in this column.
    pub fn allele_for_species(&self, species: &str) -> (r: Option<(usize, char)>)
        ensures
            match r {
                Some(p) => spec_allele_row(
                    species_view(self.species_map@),
                    self.column.alleles@.len() as int,
                    species@,
                    0,
                ) == Some(p.0 as int) && p.0 < self.column.alleles@.len() && p.1
                    == self.column.alleles@[p.0 as int],
                None => spec_allele_row(
                    species_view(self.species_map@),
                    self.column.alleles@.len() as int,
                    species@,
                    0,
                ) is None,
            },
    {
        let ghost smv = species_view(self.species_map@);
        let ghost n = self.column.alleles@.len() as int;
        let mut i: usize = 0;
        while i < self.species_map.len()
            invariant
                i <= self.species_map.len(),
                smv == species_view(self.species_map@),
                smv.len() == self.species_map@.len(),
                n == self.column.alleles@.len() as int,
                spec_allele_row(smv, n, species@, 0) == spec_allele_row(
                    smv,
                    n,
                    species@,
                    i as int,
                ),
            decreases self.species_map.len() - i,
        {
            match &self.species_map[i] {
                Some(s) => {
                    if str_equal(s, species) && i < self.column.alleles.len() {
                        return Some((i, self.column.alleles[i]));
                    }
                },
                None => {},
            }
            i += 1;
        }
        None
    }

    /// The first coordinate (in row order) lying on the given
    /// chromosome, if any row tracks one.
    pub fn ref_coord(&self, chrom: &str) -> (r: Option<&Coordinate>)
        ensures
            match r {
                Some(c) => {
                    &&& spec_chrom_row(coords_view(self.coords@), chrom@, 0) matches Some(i)
                        && coords_view(self.coords@)[i] == Some(c@)
                },
                None => spec_chrom_row(coords_view(self.coords@), chrom@, 0) is None,
            },
    {
        let ghost cv = coords_view(self.coords@);
        let mut i: usize = 0;
        while i < self.coords.len()
            invariant
                i <= self.coords.len(),
                cv == coords_view(self.coords@),
                cv.len() == self.coords@.len(),
                spec_chrom_row(cv, chrom@, 0) == spec_chrom_row(cv, chrom@, i as int),
            decreases self.coords.len() - i,
        {
            match &self.coords[i] {
                Some(c) => {
                    if str_equal(&c.chrom, chrom) {
                        return Some(c);
                    }
                },
                None => {},
            }
            i += 1;
        }
        None
    }

    /// Whether any row tracks a coordinate on the given chromosome.
    pub fn has_chromosome(&self, chrom: &str) -> (r: bool)
        ensures
            r == (spec_chrom_row(coords_view(self.coords@), chrom@, 0) is Some),
    {
        match self.ref_coord(chrom) {
            Some(_) => true,
            None => false,
        }
    }

    /// Where `pos` lies relative to this column's coordinate on `chrom`.
    pub fn contains_pos(&self, chrom: &str, pos: u64) -> (r: ContainsResult)
        ensures
            r == spec_contains_pos(coords_view(self.coords@), chrom@, pos),
    {
        match self.ref_coord(chrom) {
            None => ContainsResult::WrongChrom,
            Some(c) => {
                let l: u64 = match c.sequence_length {
                    Some(x) => x,
                    None => 1,
                };
                if pos < c.offset {
                    ContainsResult::Before
                } else if pos - c.offset >= l {
                    ContainsResult::After
                } else {
                    ContainsResult::True
                }
            },
        }
    }

    /// The tracked offset of one row, if it holds a coordinate.
    pub fn ref_offset(&self, row: usize) -> (r: Option<u64>)
        ensures
            r == (if 0 <= row < coords_view(self.coords@).len() {
                match coords_view(self.coords@)[row as int] {
                    Some(c) => Some(c.offset as u64),
                    None => None::<u64>,
                }
            } else {
                None::<u64>
            }),
    {
        if row >= self.coords.len() {
            return None;
        }
        match &self.coords[row] {
            Some(c) => Some(c.offset),
            None => None,
        }
    }

    /// A copy of this snapshot, equal at the model level.
    pub fn duplicate(&self) -> (r: TafAlignmentColumn)
        ensures
            r@ == self@,
    {
        let r = TafAlignmentColumn {
            column: self.column.duplicate(),
            species_map: clone_species(&self.species_map),
            coords: clone_coords(&self.coords),
            col_index: self.col_index,
        };
        proof {
            assert(r@ =~~= self@);
        }
        r
    }
}

// ---------------------------------------------------------------------------
// Executable fold
// ---------------------------------------------------------------------------
/// A copy of a species table, equal under `species_view`.
pub(crate) fn clone_species(v: &Vec<Option<String>>) -> (r: Vec<Option<String>>)
    ensures
        r@.len() == v@.len(),
        species_view(r@) == species_view(v@),
{
    let mut r: Vec<Option<String>> = Vec::new();
    let mut i: usize = 0;
    while i < v.len()
        invariant
            i <= v.len(),
            r@.len() == i,
            forall|j: int| 0 <= j < i ==> species_view(r@)[j] == species_view(v@)[j],
        decreases v.len() - i,
    {
        let e: Option<String> = match &v[i] {
            Some(s) => Some(s.clone()),
            None => None,
        };
        r.push(e);
        i += 1;
    }
    proof {
        assert(species_view(r@) =~= species_view(v@));
    }
    r
}

/// A copy of a coordinate table, equal under `coords_view`.
pub(crate) fn clone_coords(v: &Vec<Option<Coordinate>>) -> (r: Vec<Option<Coordinate>>)
    ensures
        r@.len() == v@.len(),
        coords_view(r@) == coords_view(v@),
{
    let mut r: Vec<Option<Coordinate>> = Vec::new();
    let mut i: usize = 0;
    while i < v.len()
        invariant
            i <= v.len(),
            r@.len() == i,
            forall|j: int| 0 <= j < i ==> coords_view(r@)[j] == coords_view(v@)[j],
        decreases v.len() - i,
    {
        let e: Option<Coordinate> = match &v[i] {
            Some(c) => Some(c.duplicate()),
            None => None,
        };
        r.push(e);
        i += 1;
    }
    proof {
        assert(coords_view(r@) =~= coords_view(v@));
    }
    r
}

/// Advances one row's offset by `add`, or reports that the result
/// would not fit in a `u64`; a row with no coordinate is left alone.
fn advance_row(co: &mut Vec<Option<Coordinate>>, row: usize, add: u64) -> (ok: bool)
    requires
        row < old(co).len(),
    ensures
        final(co)@.len() == old(co)@.len(),
        ok == (match coords_view(old(co)@)[row as int] {
            Some(c) => c.offset + add <= u64::MAX,
            None => true,
        }),
        ok ==> coords_view(final(co)@) == (match coords_view(old(co)@)[row as int] {
            Some(c) => coords_view(old(co)@).update(
                row as int,
                Some(CoordModel { offset: c.offset + add, ..c }),
            ),
            None => coords_view(old(co)@),
        }),
        !ok ==> final(co)@ == old(co)@,
{
    let repl: Option<Coordinate>;
    match &co[row] {
        Some(c) => {
            if c.offset > u64::MAX - add {
                return false;
            }
            repl = Some(
                Coordinate {
                    species: c.species.clone(),
                    chrom: c.chrom.clone(),
                    offset: c.offset + add,
                    strand: c.strand,
                    sequence_length: c.sequence_length,
                },
            );
        },
        None => {
            return true;
        },
    }
    co.set(row, repl);
    proof {
        assert(coords_view(co@) =~= (match coords_view(old(co)@)[row as int] {
            Some(c) => coords_view(old(co)@).update(
                row as int,
                Some(CoordModel { offset: c.offset + add, ..c }),
            ),
            None => coords_view(old(co)@),
        }));
    }
    true
}

/// Folds one column's operations into the two tables, in document
/// order, then advances every untouched coordinate-holding row by one
/// base; fails exactly when an offset would leave `u64`.
pub fn fold_column_ops(
    species_map: &Vec<Option<String>>,
    coords: &Vec<Option<Coordinate>>,
    ops: &Vec<CoordinateOp>,
) -> (r: Result<(Vec<Option<String>>, Vec<Option<Coordinate>>), DecodeError>)
    requires
        species_map.len() == coords.len(),
    ensures
        match r {
            Ok(p) => spec_fold_ok(coords_view(coords@), ops_view(ops@)) && species_view(p.0@)
                == spec_fold_species(species_view(species_map@), ops_view(ops@)) && coords_view(
                p.1@,
            ) == spec_fold_coords(coords_view(coords@), ops_view(ops@)) && p.0@.len()
                == species_map@.len() && p.1@.len() == coords@.len(),
            Err(e) => e == DecodeError::OffsetOverflow && !spec_fold_ok(
                coords_view(coords@),
                ops_view(ops@),
            ),
        },
{
    let len = coords.len();
    let ghost sp0 = species_view(species_map@);
    let ghost co0 = coords_view(coords@);
    let ghost ov = ops_view(ops@);
    let mut new_sp = clone_species(species_map);
    let mut new_co = clone_coords(coords);
    let mut touched: Vec<bool> = Vec::new();
    let mut t: usize = 0;
    while t < len
        invariant
            t <= len,
            touched@.len() == t,
            forall|j: int| 0 <= j < t ==> !touched@[j],
        decreases len - t,
    {
        touched.push(false);
        t += 1;
    }
    let mut k: usize = 0;
    proof {
        assert(ov.skip(0) =~= ov);
        assert(ov.take(0) =~= Seq::<OpModel>::empty());
        assert(ov.len() == ops@.len());
        assert forall|r: int| 0 <= r < len implies touched@[r] == spec_touched(
            ov.take(0),
            r,
            len as int,
        ) by {
            assert(!spec_touched(ov.take(0), r, len as int));
        }
    }
    while k < ops.len()
        invariant
            k <= ops.len(),
            ov == ops_view(ops@),
            ov.len() == ops@.len(),
            len == coords@.len(),
            co0 == coords_view(coords@),
            sp0 == species_view(species_map@),
            co0.len() == len,
            sp0.len() == len,
            new_co@.len() == len,
            new_sp@.len() == len,
            touched@.len() == len,
            apply_ops_sp(sp0, ov) == apply_ops_sp(species_view(new_sp@), ov.skip(k as int)),
            apply_ops_co(co0, ov) == apply_ops_co(coords_view(new_co@), ov.skip(k as int)),
            apply_ops_ok(co0, ov) == apply_ops_ok(coords_view(new_co@), ov.skip(k as int)),
            forall|r: int|
                0 <= r < len ==> touched@[r] == spec_touched(ov.take(k as int), r, len as int),
        decreases ops.len() - k,
    {
        let ghost su = ov.skip(k as int);
        let ghost cur_sp = species_view(new_sp@);
        let ghost cur_co = coords_view(new_co@);
        proof {
            assert(su[0] == ov[k as int]);
            assert(ov[k as int] == ops@[k as int]@);
            assert(su.skip(1) =~= ov.skip(k + 1 as int));
            assert(ov.take(k + 1 as int) =~= ov.take(k as int).push(ov[k as int]));
        }
        match &ops[k] {
            CoordinateOp::Insertion { row, coord } => {
                match coord {
                    Some(c) => {
                        if *row < len {
                            new_sp.set(*row, Some(c.species.clone()));
                            new_co.set(*row, Some(c.duplicate()));
                            touched.set(*row, true);
                            proof {
                                assert(species_view(new_sp@) =~= apply_op_sp(
                                    cur_sp,
                                    ov[k as int],
                                ));
                                assert(coords_view(new_co@) =~= apply_op_co(
                                    cur_co,
                                    ov[k as int],
                                ));
                            }
                        }
                    },
                    None => {},
                }
            },
            CoordinateOp::Substitution { row, coord } => {
                match coord {
                    Some(c) => {
                        if *row < len {
                            new_sp.set(*row, Some(c.species.clone()));
                            new_co.set(*row, Some(c.duplicate()));
                            touched.set(*row, true);
                            proof {
                                assert(species_view(new_sp@) =~= apply_op_sp(
                                    cur_sp,
                                    ov[k as int],
                                ));
                                assert(coords_view(new_co@) =~= apply_op_co(
                                    cur_co,
                                    ov[k as int],
                                ));
                            }
                        }
                    },
                    None => {},
                }
            },
            CoordinateOp::Deletion { row } => {
                if *row < len {
                    new_co.set(*row, None);
                    touched.set(*row, true);
                    proof {
                        assert(coords_view(new_co@) =~= apply_op_co(cur_co, ov[k as int]));
                    }
                }
            },
            CoordinateOp::Gap { row, gap_length } => {
                if *row < len {
                    let ok = advance_row(&mut new_co, *row, *gap_length as u64);
                    if !ok {
                        proof {
                            assert(!op_ok(cur_co, ov[k as int]));
                            assert(!apply_ops_ok(cur_co, su));
                            assert(!spec_fold_ok(co0, ov));
                        }
                        return Err(DecodeError::OffsetOverflow);
                    }
                    touched.set(*row, true);
                    proof {
                        assert(coords_view(new_co@) =~= apply_op_co(cur_co, ov[k as int]));
                    }
                }
            },
            CoordinateOp::GapString { row, gap_string } => {
                if *row < len {
                    let glen = gap_string.as_str().unicode_len();
                    let ok = advance_row(&mut new_co, *row, glen as u64);
                    if !ok {
                        proof {
                            assert(!op_ok(cur_co, ov[k as int]));
                            assert(!apply_ops_ok(cur_co, su));
                            assert(!spec_fold_ok(co0, ov));
                        }
                        return Err(DecodeError::OffsetOverflow);
                    }
                    touched.set(*row, true);
                    proof {
                        assert(coords_view(new_co@) =~= apply_op_co(cur_co, ov[k as int]));
                    }
                }
            },
        }
        proof {
            assert(species_view(new_sp@) == apply_op_sp(cur_sp, ov[k as int]));
            assert(coords_view(new_co@) == apply_op_co(cur_co, ov[k as int]));
            assert(op_ok(cur_co, ov[k as int]));
            assert(apply_ops_sp(cur_sp, su) == apply_ops_sp(
                species_view(new_sp@),
                ov.skip(k + 1 as int),
            ));
            assert(apply_ops_co(cur_co, su) == apply_ops_co(
                coords_view(new_co@),
                ov.skip(k + 1 as int),
            ));
            assert(apply_ops_ok(cur_co, su) == apply_ops_ok(
                coords_view(new_co@),
                ov.skip(k + 1 as int),
            ));
            assert forall|r: int| 0 <= r < len implies touched@[r] == spec_touched(
                ov.take(k + 1 as int),
                r,
                len as int,
            ) by {
                lemma_touched_push(ov.take(k as int), ov[k as int], r, len as int);
            }
        }
        k += 1;
    }
    proof {
        assert(ov.skip(ov.len() as int) =~= Seq::<OpModel>::empty());
        assert(ov.take(ov.len() as int) =~= ov);
        assert(apply_ops_sp(sp0, ov) == species_view(new_sp@));
        assert(apply_ops_co(co0, ov) == coords_view(new_co@));
        assert(apply_ops_ok(co0, ov));
    }
    let ghost applied = apply_ops_co(co0, ov);
    let mut r: usize = 0;
    while r < len
        invariant
            r <= len,
            ov == ops_view(ops@),
            len == coords@.len(),
            co0 == coords_view(coords@),
            co0.len() == len,
            new_co@.len() == len,
            touched@.len() == len,
            applied == apply_ops_co(co0, ov),
            applied.len() == len,
            forall|j: int|
                0 <= j < len ==> touched@[j] == spec_touched(ov, j, len as int),
            forall|j: int|
                r <= j < len ==> coords_view(new_co@)[j] == applied[j],
            forall|j: int|
                0 <= j < r ==> coords_view(new_co@)[j] == (if spec_touched(ov, j, len as int) {
                    applied[j]
                } else {
                    bump(applied[j])
                }),
            forall|j: int|
                0 <= j < r && !spec_touched(ov, j, len as int) ==> (match applied[j] {
                    Some(c) => c.offset + 1 <= u64::MAX,
                    None => true,
                }),
        decreases len - r,
    {
        if !touched[r] {
            let ok = advance_row(&mut new_co, r, 1);
            if !ok {
                proof {
                    assert(!spec_fold_ok(co0, ov));
                }
                return Err(DecodeError::OffsetOverflow);
            }
        }
        r += 1;
    }
    proof {
        assert(spec_fold_ok(co0, ov));
        assert(coords_view(new_co@) =~= spec_fold_coords(co0, ov));
    }
    Ok((new_sp, new_co))
}

} // verus!
