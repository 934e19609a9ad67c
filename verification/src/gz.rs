//! The trusted decompression boundary.  The alignment file is a
//! sequence of independently compressed blocks, each one gzip member;
//! the variant file may be gzip-compressed as a whole.  Everything the
//! rest of the crate knows about the compressed bytes passes through
//! the two named results below.
use vstd::prelude::*;

use std::io::Read;

verus! {

/// The result of decompressing the single gzip member at the head of
/// the given bytes and decoding it as text: the text and the count of
/// compressed bytes the member occupied, or nothing when the bytes do
/// not begin with a well-formed member or its contents are not valid
/// UTF-8.  The result depends on the bytes alone.
pub uninterp spec fn gunzip_of(data: Seq<u8>) -> Option<(Seq<char>, int)>;

/// The result of decompressing every gzip member of the given bytes,
/// concatenated and decoded as text, or nothing when they are not a
/// well-formed member sequence or not valid UTF-8.  The result depends
/// on the bytes alone.
pub uninterp spec fn gunzip_all_of(data: Seq<u8>) -> Option<Seq<char>>;

/// Relies on flate2's `bufread::GzDecoder` over a byte slice: it
/// decodes exactly one gzip member and consumes only that member's
/// bytes from the slice, so the remainder after `into_inner` starts at
/// the following byte; a member's header alone is at least ten bytes,
/// so a successful decode consumes at least one.  std's
/// `read_to_string` decodes the member as UTF-8 and fails on invalid
/// sequences.
#[verifier::external_body]
pub fn gunzip_member(data: &Vec<u8>, start: usize) -> (r: Option<(String, usize)>)
    requires
        start <= data.len(),
    ensures
        match r {
            Some(p) => gunzip_of(data@.skip(start as int)) == Some((p.0@, p.1 as int)) && start
                < start + p.1 <= data@.len(),
            None => gunzip_of(data@.skip(start as int)) is None,
        },
{
    let tail = &data[start..];
    let mut decoder = flate2::bufread::GzDecoder::new(tail);
    let mut text = String::new();
    match decoder.read_to_string(&mut text) {
        Ok(_) => {
            let remaining = decoder.into_inner().len();
            Some((text, tail.len() - remaining))
        },
        Err(_) => None,
    }
}

/// Relies on flate2's `bufread::MultiGzDecoder` over a byte slice: it
/// decodes every concatenated gzip member to the end of the data, and
/// std's `read_to_string` decodes the result as UTF-8, failing on
/// invalid sequences.
#[verifier::external_body]
pub fn gunzip_multi(data: &Vec<u8>) -> (r: Option<String>)
    ensures
        match r {
            Some(s) => gunzip_all_of(data@) == Some(s@),
            None => gunzip_all_of(data@) is None,
        },
{
    let mut decoder = flate2::bufread::MultiGzDecoder::new(&data[..]);
    let mut text = String::new();
    match decoder.read_to_string(&mut text) {
        Ok(_) => Some(text),
        Err(_) => None,
    }
}

} // verus!
