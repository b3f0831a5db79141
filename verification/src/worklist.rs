//! The worklist: which files are eligible, and how many bytes they hold
//! together.

use crate::progress::total_of;
use crate::run::capped;
use crate::scan::find_pattern;
use crate::scan::occurs_at;
use crate::worker::InputFile;
use vstd::prelude::*;
use vstd::slice::slice_subrange;
use vstd::string::StringSliceAdditionalSpecFns;

verus! {

/// The byte `.`.
pub const DOT: u8 = 0x2e;

/// The bytes `zst`.
pub open spec fn zst() -> Seq<u8> {
    seq![0x7au8, 0x73u8, 0x74u8]
}

/// The index just after the last dot of `path`, or zero where it has none.
pub open spec fn extension_start(path: Seq<u8>) -> nat
    decreases path.len(),
{
    if path.len() == 0 {
        0
    } else if path.last() == DOT {
        path.len()
    } else {
        extension_start(path.drop_last())
    }
}

/// A path is eligible when what follows its last dot holds `zst`. A path
/// without a dot is taken whole.
pub open spec fn eligible(path: Seq<u8>) -> bool {
    exists|i: int| occurs_at(path.skip(extension_start(path) as int), zst(), i)
}

/// The extension starts within the path.
pub proof fn lemma_extension_start_bound(path: Seq<u8>)
    ensures
        extension_start(path) <= path.len(),
    decreases path.len(),
{
    if path.len() > 0 && path.last() != DOT {
        lemma_extension_start_bound(path.drop_last());
    }
}

/// Finds where the extension of `path` starts.
pub fn find_extension(path: &[u8]) -> (start: usize)
    ensures
        start == extension_start(path@),
        start <= path.len(),
{
    let mut k: usize = path.len();
    assert(path@.take(k as int) =~= path@);
    while k > 0 && path[k - 1] != DOT
        invariant
            k <= path.len(),
            extension_start(path@) == extension_start(path@.take(k as int)),
        decreases k,
    {
        assert(path@.take(k as int).drop_last() =~= path@.take(k - 1));
        k -= 1;
    }
    k
}

/// Tells whether the file at `path` belongs on the worklist.
pub fn is_eligible(path: &str) -> (b: bool)
    ensures
        b == eligible(path.spec_bytes()),
{
    let bytes = path.as_bytes();
    let start = find_extension(bytes);
    let extension = slice_subrange(bytes, start, bytes.len());
    assert(extension@ =~= bytes@.skip(start as int));
    let wanted: [u8; 3] = [0x7a, 0x73, 0x74];
    assert(wanted@ =~= zst());
    find_pattern(extension, wanted.as_slice()).is_some()
}

/// The sizes of `files`, in order.
pub open spec fn sizes_of(files: Seq<InputFile>) -> Seq<u64> {
    Seq::new(files.len(), |i: int| files[i].size)
}

/// The bytes that `files` hold together, held at the largest `u64`: the
/// length of the whole run for whoever shows the progress.
pub fn total_size(files: &Vec<InputFile>) -> (total: u64)
    ensures
        total == capped(total_of(sizes_of(files@))),
{
    let mut total: u64 = 0;
    let mut i: usize = 0;
    assert(sizes_of(files@).take(0) =~= Seq::<u64>::empty());
    while i < files.len()
        invariant
            i <= files.len(),
            total == capped(total_of(sizes_of(files@).take(i as int))),
        decreases files.len() - i,
    {
        let size = files[i].size;
        proof {
            let longer = sizes_of(files@).take(i + 1);
            assert(longer.drop_last() =~= sizes_of(files@).take(i as int));
            assert(longer.last() == size);
        }
        total = if size > u64::MAX - total {
            u64::MAX
        } else {
            total + size
        };
        i += 1;
    }
    assert(sizes_of(files@).take(i as int) =~= sizes_of(files@));
    total
}

} // verus!
