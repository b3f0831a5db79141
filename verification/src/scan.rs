//! The scanning strategy: locate the literal marker `"<field>":"` in a
//! record's raw bytes and read the value up to the next quote byte.
//!
//! No unescaping is done: a value that holds an escaped quote is cut at
//! that quote. The strategy is meant for values known to hold none.

use crate::outcome::Outcome;
use vstd::prelude::*;
use vstd::slice::slice_subrange;
use vstd::slice::slice_to_vec;
use vstd::string::StringSliceAdditionalSpecFns;

verus! {

/// The byte `"`.
pub const QUOTE: u8 = 0x22;

/// The byte `:`.
pub const COLON: u8 = 0x3a;

/// The bytes that introduce the string value of a field: a quote, the
/// field's name, and `":"`.
pub open spec fn marker_of(field: Seq<u8>) -> Seq<u8> {
    seq![QUOTE] + field + seq![QUOTE, COLON, QUOTE]
}

/// `pat` stands in `line` at index `i`.
pub open spec fn occurs_at(line: Seq<u8>, pat: Seq<u8>, i: int) -> bool {
    &&& 0 <= i
    &&& i + pat.len() <= line.len()
    &&& line.subrange(i, i + pat.len()) == pat
}

/// `pat` stands in `line` at index `i` and at no smaller index.
pub open spec fn is_first_occurrence(line: Seq<u8>, pat: Seq<u8>, i: int) -> bool {
    &&& occurs_at(line, pat, i)
    &&& forall|j: int| 0 <= j < i ==> !occurs_at(line, pat, j)
}

/// The smallest index at which `pat` stands in `line`, if there is one.
pub open spec fn first_occurrence(line: Seq<u8>, pat: Seq<u8>) -> Option<int> {
    if exists|i: int| is_first_occurrence(line, pat, i) {
        Some(choose|i: int| is_first_occurrence(line, pat, i))
    } else {
        None
    }
}

/// What the scanning strategy reads from a record: the bytes between the
/// end of the first marker and the first quote after it. The field is
/// absent where the marker does not occur, and the record malformed where
/// no quote follows the marker.
pub open spec fn scanned_value(line: Seq<u8>, field: Seq<u8>) -> Outcome<Seq<u8>> {
    let m = marker_of(field);
    match first_occurrence(line, m) {
        None => Outcome::Absent,
        Some(i) => {
            let rest = line.skip(i + m.len());
            match first_occurrence(rest, seq![QUOTE]) {
                None => Outcome::Malformed,
                Some(e) => Outcome::Value(rest.take(e)),
            }
        },
    }
}

/// A first occurrence is the one that `first_occurrence` names.
pub proof fn lemma_first_occurrence_is(line: Seq<u8>, pat: Seq<u8>, i: int)
    requires
        is_first_occurrence(line, pat, i),
    ensures
        first_occurrence(line, pat) == Some(i),
{
    let k = choose|k: int| is_first_occurrence(line, pat, k);
    if k < i {
        assert(!occurs_at(line, pat, k));
    }
    if i < k {
        assert(!occurs_at(line, pat, i));
    }
}

/// Builds the marker for `field`.
pub fn build_marker(field: &str) -> (m: Vec<u8>)
    ensures
        m@ == marker_of(field.spec_bytes()),
{
    let name = field.as_bytes();
    let mut m: Vec<u8> = Vec::new();
    m.push(QUOTE);
    let mut i: usize = 0;
    while i < name.len()
        invariant
            i <= name.len(),
            m@ == seq![QUOTE] + name@.take(i as int),
        decreases name.len() - i,
    {
        m.push(name[i]);
        i += 1;
        assert(m@ =~= seq![QUOTE] + name@.take(i as int));
    }
    assert(name@.take(i as int) =~= name@);
    m.push(QUOTE);
    m.push(COLON);
    m.push(QUOTE);
    assert(m@ =~= marker_of(field.spec_bytes()));
    m
}

/// Tells whether `pat` stands in `line` at index `i`.
pub fn matches_at(line: &[u8], pat: &[u8], i: usize) -> (r: bool)
    ensures
        r == occurs_at(line@, pat@, i as int),
{
    if pat.len() > line.len() || i > line.len() - pat.len() {
        return false;
    }
    let mut k: usize = 0;
    while k < pat.len()
        invariant
            k <= pat.len(),
            i + pat.len() <= line.len(),
            forall|t: int| 0 <= t < k ==> line@[i + t] == pat@[t],
        decreases pat.len() - k,
    {
        if line[i + k] != pat[k] {
            proof {
                let window = line@.subrange(i as int, i + pat.len());
                assert(window[k as int] == line@[i + k]);
            }
            return false;
        }
        k += 1;
    }
    assert(line@.subrange(i as int, i + pat.len()) =~= pat@);
    true
}

/// Finds the first index at which `pat` stands in `line`.
pub fn find_pattern(line: &[u8], pat: &[u8]) -> (r: Option<usize>)
    ensures
        r.is_some() <==> exists|i: int| occurs_at(line@, pat@, i),
        r matches Some(i) ==> is_first_occurrence(line@, pat@, i as int),
        match r {
            Some(i) => first_occurrence(line@, pat@) == Some(i as int),
            None => first_occurrence(line@, pat@).is_none(),
        },
{
    let mut i: usize = 0;
    while i < line.len()
        invariant
            i <= line.len(),
            forall|j: int| 0 <= j < i ==> !occurs_at(line@, pat@, j),
        decreases line.len() - i,
    {
        if matches_at(line, pat, i) {
            proof {
                lemma_first_occurrence_is(line@, pat@, i as int);
            }
            return Some(i);
        }
        i += 1;
    }
    if matches_at(line, pat, i) {
        proof {
            lemma_first_occurrence_is(line@, pat@, i as int);
        }
        return Some(i);
    }
    assert forall|j: int| !occurs_at(line@, pat@, j) by {
        if 0 <= j && j + pat@.len() <= line@.len() {
            assert(j <= i);
        }
    }
    None
}

/// The scanning strategy on one record: the raw bytes of the field's value.
pub fn scan_value(line: &[u8], field: &str) -> (r: Outcome<Vec<u8>>)
    ensures
        r@ == scanned_value(line@, field.spec_bytes()),
{
    let marker = build_marker(field);
    let pat = marker.as_slice();
    match find_pattern(line, pat) {
        None => Outcome::Absent,
        Some(i) => {
            assert(i + pat@.len() <= line@.len());
            assert(pat@.len() == pat.len() && line@.len() == line.len());
            let rest = slice_subrange(line, i + pat.len(), line.len());
            assert(rest@ =~= line@.skip(i + pat@.len()));
            let quote: [u8; 1] = [QUOTE];
            assert(quote@ =~= seq![QUOTE]);
            match find_pattern(rest, quote.as_slice()) {
                None => Outcome::Malformed,
                Some(e) => {
                    let value = slice_subrange(rest, 0, e);
                    assert(value@ =~= rest@.take(e as int));
                    Outcome::Value(slice_to_vec(value))
                },
            }
        },
    }
}

} // verus!
