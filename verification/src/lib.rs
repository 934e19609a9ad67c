//! Tools for multi-species genome alignment data: a decoder for the
//! column-oriented, run-length-encoded alignment text format, a block
//! index for random access into its compressed blocks, a seekable
//! alignment-column stream, and a synchronizer that walks a
//! coordinate-sorted variant stream against the alignment to assign an
//! ancestral allele to each variant.  A line-oriented alignment-block
//! reader and a variant-record reader round out the set.
use vstd::prelude::*;

pub mod fold;
pub mod indels;
pub mod maf;
pub mod taf;
pub mod gz;
pub mod sync;
pub mod tai;
pub mod taf_stream;
pub mod vcf;
pub mod text;

verus! {

/// True for the four characters this library treats as whitespace when
/// splitting fields: space, tab, carriage return and line feed.
pub open spec fn spec_is_space(c: char) -> bool {
    c == ' ' || c == '\t' || c == '\r' || c == '\n'
}

/// Whitespace test used by all tokenizers in this crate.
pub fn is_space(c: char) -> (r: bool)
    ensures
        r == spec_is_space(c),
{
    c == ' ' || c == '\t' || c == '\r' || c == '\n'
}

} // verus!
