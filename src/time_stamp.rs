//! Timestamped output lines: a record decoded to text, prefixed by a
//! timestamp and a `": "` separator.

use vstd::prelude::*;
use vstd::string::StringExecFns;

use crate::args::StringParsingMode;

verus! {

/// The text that lossy UTF-8 decoding makes of a byte sequence.
pub uninterp spec fn utf8_lossy(bytes: Seq<u8>) -> Seq<char>;

/// Relies on `String::from_utf8_lossy`: the text depends on the bytes alone,
/// invalid sequences becoming U+FFFD.
#[verifier::external_body]
fn decode_utf8_lossy(bytes: &[u8]) -> (r: String)
    ensures
        r@ == utf8_lossy(bytes@),
{
    String::from_utf8_lossy(bytes).into_owned()
}

/// The text a record becomes under `mode`.
pub open spec fn decoded(mode: StringParsingMode, record: Seq<u8>) -> Seq<char> {
    match mode {
        StringParsingMode::Utf8 => utf8_lossy(record),
    }
}

/// The separator between a timestamp and its record.
pub open spec fn separator() -> Seq<char> {
    seq![':', ' ']
}

/// A timestamp, the separator, then the record's text.
pub open spec fn framed(timestamp: Seq<char>, text: Seq<char>) -> Seq<char> {
    timestamp + separator() + text
}

/// Joins a timestamp and a record's text with the separator.
pub fn frame_record(timestamp: &str, text: &str) -> (r: String)
    ensures
        r@ == framed(timestamp@, text@),
{
    let mut r = String::from_str(timestamp);
    let sep = ": ";
    proof {
        reveal_strlit(": ");
    }
    r.append(sep);
    r.append(text);
    assert(sep@ =~= separator());
    r
}

/// Decodes a record to text under `mode`.
pub fn decode_record(record: &[u8], mode: StringParsingMode) -> (r: String)
    ensures
        r@ == decoded(mode, record@),
{
    match mode {
        StringParsingMode::Utf8 => decode_utf8_lossy(record),
    }
}

/// Timestamps a record: the given timestamp, the separator, then the record
/// decoded under `mode`.
pub fn stamp_record(record: &[u8], mode: StringParsingMode, timestamp: &str) -> (r: String)
    ensures
        r@ == framed(timestamp@, decoded(mode, record@)),
{
    let text = decode_record(record, mode);
    frame_record(timestamp, text.as_str())
}

} // verus!
