//! Extraction of the target field's value from one record, under either of
//! two strategies, followed by the acceptance filter.

use crate::outcome::Outcome;
use crate::scan::scan_value;
use crate::scan::scanned_value;
use compact_str::CompactString;
use vstd::prelude::*;
use vstd::string::StrSliceExecFns;
use vstd::string::StringSliceAdditionalSpecFns;
use vstd::utf8::decode_utf8;
use vstd::utf8::valid_utf8;

verus! {

/// How a record is read.
#[derive(Clone, Copy, Debug, PartialEq, Eq, Structural)]
pub enum Strategy {
    /// Parse the record as JSON and look the field up in the object.
    Structured,
    /// Search the raw bytes for the field's marker.
    Scanning,
}

/// What the JSON parser makes of a record when asked for a member of its
/// top-level object as a string: `None` where the record is not valid
/// JSON, `Some(None)` where it is but holds no string under that key
/// (no object, no such member, or a member of another type), and the
/// member's text otherwise.
pub uninterp spec fn json_text_member(record: Seq<u8>, field: Seq<char>) -> Option<
    Option<Seq<char>>,
>;

/// `simd_json::to_borrowed_value` on a copy of the record, then `get_str`
/// with the field's name on the value it gives. The parser's error is
/// mapped to `None`; nothing else is decided here.
#[verifier::external_body]
fn parse_text_member(record: &[u8], field: &str) -> (r: Option<Option<String>>)
    ensures
        match r {
            None => json_text_member(record@, field@).is_none(),
            Some(None) => json_text_member(record@, field@) == Some(None::<Seq<char>>),
            Some(Some(text)) => json_text_member(record@, field@) == Some(Some(text@)),
        },
{
    let mut buffer = record.to_vec();
    let parsed = simd_json::to_borrowed_value(&mut buffer);
    let member = match &parsed {
        Ok(value) => Some(
            simd_json::derived::ValueObjectAccessAsScalar::get_str(value, field).map(String::from),
        ),
        Err(_) => None,
    };
    member
}

/// `CompactString::from_utf8`, the text handed back as a `String`: there
/// is a result exactly for valid UTF-8, and it is the decoded text.
#[verifier::external_body]
fn text_of_utf8(bytes: &[u8]) -> (r: Option<String>)
    ensures
        r.is_some() == valid_utf8(bytes@),
        r matches Some(text) ==> text@ == decode_utf8(bytes@),
{
    match CompactString::from_utf8(bytes) {
        Ok(text) => Some(String::from(text)),
        Err(_) => None,
    }
}

/// The text of the field in `record` under `strategy`, before any filter.
pub open spec fn raw_text(record: Seq<u8>, field: Seq<char>, strategy: Strategy) -> Outcome<
    Seq<char>,
> {
    match strategy {
        Strategy::Structured => structured_outcome(json_text_member(record, field)),
        Strategy::Scanning => decoded(scanned_value(record, vstd::utf8::encode_utf8(field))),
    }
}

/// The outcome that a parse result stands for.
pub open spec fn structured_outcome(parsed: Option<Option<Seq<char>>>) -> Outcome<Seq<char>> {
    match parsed {
        None => Outcome::Malformed,
        Some(None) => Outcome::Absent,
        Some(Some(text)) => Outcome::Value(text),
    }
}

/// A scanned value as text: malformed where the bytes are not UTF-8.
pub open spec fn decoded(scanned: Outcome<Seq<u8>>) -> Outcome<Seq<char>> {
    match scanned {
        Outcome::Value(bytes) => if valid_utf8(bytes) {
            Outcome::Value(decode_utf8(bytes))
        } else {
            Outcome::Malformed
        },
        Outcome::Rejected => Outcome::Rejected,
        Outcome::Absent => Outcome::Absent,
        Outcome::Malformed => Outcome::Malformed,
    }
}

/// The acceptance filter: a value counts when it is not empty and, where
/// a limit is set, has at most that many characters.
pub open spec fn accepts(limit: Option<usize>, text: Seq<char>) -> bool {
    &&& text.len() > 0
    &&& limit matches Some(n) ==> text.len() <= n
}

/// An outcome after the acceptance filter.
pub open spec fn filtered(found: Outcome<Seq<char>>, limit: Option<usize>) -> Outcome<Seq<char>> {
    match found {
        Outcome::Value(text) => if accepts(limit, text) {
            Outcome::Value(text)
        } else {
            Outcome::Rejected
        },
        other => other,
    }
}

/// What extraction gives for one record: the field's text under the
/// strategy, then the filter.
pub open spec fn record_outcome(
    record: Seq<u8>,
    field: Seq<char>,
    strategy: Strategy,
    limit: Option<usize>,
) -> Outcome<Seq<char>> {
    filtered(raw_text(record, field, strategy), limit)
}

/// Turns a parse result into an outcome.
pub fn outcome_of_parse(parsed: Option<Option<String>>) -> (r: Outcome<String>)
    ensures
        r@ == structured_outcome(
            match parsed {
                None => None,
                Some(None) => Some(None),
                Some(Some(text)) => Some(Some(text@)),
            },
        ),
{
    match parsed {
        None => Outcome::Malformed,
        Some(None) => Outcome::Absent,
        Some(Some(text)) => Outcome::Value(text),
    }
}

/// Turns scanned bytes into text.
pub fn decode_scanned(scanned: Outcome<Vec<u8>>) -> (r: Outcome<String>)
    ensures
        r@ == decoded(scanned@),
{
    match scanned {
        Outcome::Value(bytes) => match text_of_utf8(bytes.as_slice()) {
            Some(text) => Outcome::Value(text),
            None => Outcome::Malformed,
        },
        Outcome::Rejected => Outcome::Rejected,
        Outcome::Absent => Outcome::Absent,
        Outcome::Malformed => Outcome::Malformed,
    }
}

/// Applies the acceptance filter to a found value.
pub fn apply_filter(found: Outcome<String>, limit: Option<usize>) -> (r: Outcome<String>)
    ensures
        r@ == filtered(found@, limit),
{
    match found {
        Outcome::Value(text) => {
            let n = text.as_str().unicode_len();
            let short = match limit {
                Some(max) => n <= max,
                None => true,
            };
            if n > 0 && short {
                Outcome::Value(text)
            } else {
                Outcome::Rejected
            }
        },
        Outcome::Rejected => Outcome::Rejected,
        Outcome::Absent => Outcome::Absent,
        Outcome::Malformed => Outcome::Malformed,
    }
}

/// Extracts the field from one record. A record that cannot be read, or
/// that lacks the field, gives an outcome without a value; it is never an
/// error of the caller's.
pub fn extract_field(record: &[u8], field: &str, strategy: Strategy, limit: Option<usize>) -> (r:
    Outcome<String>)
    ensures
        r@ == record_outcome(record@, field@, strategy, limit),
{
    let found = match strategy {
        Strategy::Structured => outcome_of_parse(parse_text_member(record, field)),
        Strategy::Scanning => decode_scanned(scan_value(record, field)),
    };
    apply_filter(found, limit)
}

} // verus!
