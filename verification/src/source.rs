//! The data as bytes: unpacking it, and cutting it into lines.

use vstd::prelude::*;
use vstd::slice::slice_subrange;
use vstd::utf8::{decode_utf8, valid_utf8};

verus! {

/// Whether `data` begins with the two bytes that mark gzip data.
pub open spec fn is_gzip(data: Seq<u8>) -> bool {
    data.len() >= 2 && data[0] == 0x1f && data[1] == 0x8b
}

/// Whether `data` begins with the two bytes that mark gzip data.
pub fn looks_gzipped(data: &[u8]) -> (b: bool)
    ensures
        b == is_gzip(data@),
{
    data.len() >= 2 && data[0] == 0x1f && data[1] == 0x8b
}

/// What the first member of the gzip data `data` unpacks to, if the decoder
/// accepts it.
pub uninterp spec fn gunzip_result(data: Seq<u8>) -> Option<Seq<u8>>;

/// Reads a `flate2::read::GzDecoder` over `data` to its end: the bytes that
/// the first gzip member of `data` unpacks to, or `None` where the decoder
/// reports an error. Nothing is claimed of the bytes but that the same data
/// unpacks to the same bytes.
#[verifier::external_body]
pub(crate) fn gunzip(data: &[u8]) -> (unpacked: Option<Vec<u8>>)
    ensures
        unpacked is Some <==> gunzip_result(data@) is Some,
        unpacked matches Some(bytes) ==> gunzip_result(data@) == Some(bytes@),
{
    let mut bytes = Vec::new();
    match std::io::Read::read_to_end(&mut flate2::read::GzDecoder::new(data), &mut bytes) {
        Ok(_) => Some(bytes),
        Err(_) => None,
    }
}

/// `core::str::from_utf8`: the text that the bytes encode in UTF-8, if they
/// encode one.
#[verifier::external_body]
pub(crate) fn utf8_text<'a>(bytes: &'a [u8]) -> (text: Option<&'a str>)
    ensures
        text is Some <==> valid_utf8(bytes@),
        text matches Some(t) ==> t@ == decode_utf8(bytes@),
{
    core::str::from_utf8(bytes).ok()
}

/// Where the line that begins at `from` ends: at the next line feed, or at
/// the end of the data.
pub open spec fn line_end(data: Seq<u8>, from: int) -> int
    decreases data.len() - from,
{
    if from < 0 || from >= data.len() {
        data.len() as int
    } else if data[from] == 0x0a {
        from
    } else {
        line_end(data, from + 1)
    }
}

/// The line that begins at `from`, without the line feed that ends it and
/// without a carriage return before that line feed.
pub open spec fn line_at(data: Seq<u8>, from: int) -> Seq<u8> {
    let end = line_end(data, from);
    if from < end < data.len() && data[end - 1] == 0x0d {
        data.subrange(from, end - 1)
    } else {
        data.subrange(from, end)
    }
}

/// A line ends at or behind its beginning, inside the data.
pub proof fn lemma_line_end(data: Seq<u8>, from: int)
    requires
        0 <= from <= data.len(),
    ensures
        from <= line_end(data, from) <= data.len(),
        line_end(data, from) < data.len() ==> data[line_end(data, from)] == 0x0a,
    decreases data.len() - from,
{
    if from < data.len() && data[from] != 0x0a {
        lemma_line_end(data, from + 1);
    }
}

/// Where the line that begins at `from` ends.
pub fn find_line_end(data: &[u8], from: usize) -> (end: usize)
    requires
        from <= data@.len(),
    ensures
        end == line_end(data@, from as int),
        from <= end <= data@.len(),
{
    let len = data.len();
    let mut end = from;
    while end < len && data[end] != 0x0a
        invariant
            from <= end <= len,
            len == data@.len(),
            line_end(data@, from as int) == line_end(data@, end as int),
        decreases len - end,
    {
        end += 1;
    }
    end
}

/// The line of `data` that begins at `from` and ends at `end`.
pub fn line_between<'a>(data: &'a [u8], from: usize, end: usize) -> (line: &'a [u8])
    requires
        from <= data@.len(),
        end == line_end(data@, from as int),
    ensures
        line@ == line_at(data@, from as int),
{
    proof {
        lemma_line_end(data@, from as int);
    }
    if from < end && end < data.len() && data[end - 1] == 0x0d {
        slice_subrange(data, from, end - 1)
    } else {
        slice_subrange(data, from, end)
    }
}

} // verus!
