//! Deduplicated collections of extracted values: the per-file result set
//! and the run-wide aggregate that every worker merges into.
//!
//! The values live in an `FxHashSet<CompactString>`. Verus sees nothing
//! inside that collection; what it holds is named by `held`, and the few
//! operations used here are stated over that name.

use compact_str::CompactString;
use rustc_hash::FxHashSet;
use vstd::prelude::*;

verus! {

#[verifier::external_type_specification]
#[verifier::external_body]
pub struct ExCompactString(compact_str::CompactString);

#[verifier::external_type_specification]
#[verifier::external_body]
pub struct ExFxBuildHasher(rustc_hash::FxBuildHasher);

/// The strings that a hash set of compact strings holds.
pub uninterp spec fn held(s: FxHashSet<CompactString>) -> Set<Seq<char>>;

/// `values` is finite and has `n` members.
pub open spec fn counts(values: Set<Seq<char>>, n: nat) -> bool {
    values.finite() && values.len() == n
}

/// `FxHashSet::default`: a new set holds nothing.
#[verifier::external_body]
fn fx_empty() -> (s: FxHashSet<CompactString>)
    ensures
        held(s) == Set::<Seq<char>>::empty(),
{
    FxHashSet::default()
}

/// `HashSet::insert` on the compact copy of `v`: afterwards the set holds
/// `v` beside what it held, and the result tells whether `v` was new.
/// Compact strings are equal, and hash alike, exactly when their text is.
#[verifier::external_body]
fn fx_insert(s: &mut FxHashSet<CompactString>, v: &str) -> (fresh: bool)
    ensures
        held(*final(s)) == held(*old(s)).insert(v@),
        fresh == !held(*old(s)).contains(v@),
{
    s.insert(CompactString::from(v))
}

/// `HashSet::extend` with another set: afterwards the set holds what
/// either held.
#[verifier::external_body]
fn fx_extend(s: &mut FxHashSet<CompactString>, other: FxHashSet<CompactString>)
    ensures
        held(*final(s)) == held(*old(s)).union(held(other)),
{
    s.extend(other)
}

/// `HashSet::len`: the number of strings held, which is finite.
#[verifier::external_body]
fn fx_len(s: &FxHashSet<CompactString>) -> (n: usize)
    ensures
        counts(held(*s), n as nat),
{
    s.len()
}

/// `HashSet::contains`, asked with a string slice.
#[verifier::external_body]
fn fx_contains(s: &FxHashSet<CompactString>, v: &str) -> (b: bool)
    ensures
        b == held(*s).contains(v@),
{
    s.contains(v)
}

/// `HashSet::iter`, each item copied out as a `String`: every string held
/// comes out once, in an order that is not stated.
#[verifier::external_body]
fn fx_values(s: &FxHashSet<CompactString>) -> (out: Vec<String>)
    ensures
        counts(held(*s), out@.len()),
        forall|i: int| 0 <= i < out@.len() ==> held(*s).contains(#[trigger] out@[i]@),
        forall|v: Seq<char>|
            held(*s).contains(v) ==> exists|i: int| 0 <= i < out@.len() && #[trigger] out@[i]@ == v,
        forall|i: int, j: int|
            0 <= i < j < out@.len() ==> #[trigger] out@[i]@ != #[trigger] out@[j]@,
{
    let mut out: Vec<String> = Vec::new();
    for item in s.iter() {
        out.push(String::from(item.as_str()));
    }
    out
}

/// A set of extracted values, compared by their exact text.
pub struct ResultSet {
    items: FxHashSet<CompactString>,
}

impl View for ResultSet {
    type V = Set<Seq<char>>;

    closed spec fn view(&self) -> Set<Seq<char>> {
        held(self.items)
    }
}

impl ResultSet {
    /// The empty set.
    pub fn new() -> (s: ResultSet)
        ensures
            s@ == Set::<Seq<char>>::empty(),
    {
        ResultSet { items: fx_empty() }
    }

    /// Adds `value`; tells whether it was not held before. Adding a value
    /// that is held changes nothing.
    pub fn insert(&mut self, value: &str) -> (fresh: bool)
        ensures
            final(self)@ == old(self)@.insert(value@),
            fresh == !old(self)@.contains(value@),
            !fresh ==> final(self)@ == old(self)@,
    {
        let fresh = fx_insert(&mut self.items, value);
        proof {
            if !fresh {
                assert(old(self)@.insert(value@) =~= old(self)@);
            }
        }
        fresh
    }

    /// Adds every value of `other`.
    pub fn merge(&mut self, other: ResultSet)
        ensures
            final(self)@ == old(self)@.union(other@),
    {
        fx_extend(&mut self.items, other.items);
    }

    /// The number of distinct values held.
    pub fn len(&self) -> (n: usize)
        ensures
            self@.finite(),
            n == self@.len(),
    {
        fx_len(&self.items)
    }

    /// Tells whether nothing is held.
    pub fn is_empty(&self) -> (b: bool)
        ensures
            b == (self@ == Set::<Seq<char>>::empty()),
    {
        let n = fx_len(&self.items);
        proof {
            if n == 0 {
                self@.lemma_len0_is_empty();
            }
        }
        n == 0
    }

    /// Tells whether `value` is held.
    pub fn contains(&self, value: &str) -> (b: bool)
        ensures
            b == self@.contains(value@),
    {
        fx_contains(&self.items, value)
    }

    /// The values held, each once, in no particular order.
    pub fn values(&self) -> (out: Vec<String>)
        ensures
            self@.finite(),
            out@.len() == self@.len(),
            forall|i: int| 0 <= i < out@.len() ==> self@.contains(#[trigger] out@[i]@),
            forall|v: Seq<char>|
                self@.contains(v) ==> exists|i: int| 0 <= i < out@.len() && #[trigger] out@[i]@ == v,
            forall|i: int, j: int|
                0 <= i < j < out@.len() ==> #[trigger] out@[i]@ != #[trigger] out@[j]@,
    {
        fx_values(&self.items)
    }
}

/// The values that at least one of `locals` holds.
pub open spec fn union_of(locals: Seq<Set<Seq<char>>>) -> Set<Seq<char>> {
    Set::new(|v: Seq<char>| exists|i: int| 0 <= i < locals.len() && #[trigger] locals[i].contains(v))
}

/// What an aggregate that held `start` holds after `locals` were merged
/// into it one after the other.
pub open spec fn merged(start: Set<Seq<char>>, locals: Seq<Set<Seq<char>>>) -> Set<Seq<char>>
    decreases locals.len(),
{
    if locals.len() == 0 {
        start
    } else {
        merged(start, locals.drop_last()).union(locals.last())
    }
}

/// Merging sets one after the other gives the union of all of them with
/// what was held at the start.
pub proof fn lemma_merged_is_union(start: Set<Seq<char>>, locals: Seq<Set<Seq<char>>>)
    ensures
        merged(start, locals) == start.union(union_of(locals)),
    decreases locals.len(),
{
    if locals.len() == 0 {
        assert(start.union(union_of(locals)) =~= start);
    } else {
        let front = locals.drop_last();
        lemma_merged_is_union(start, front);
        let lhs = merged(start, locals);
        let rhs = start.union(union_of(locals));
        assert forall|v: Seq<char>| lhs.contains(v) implies rhs.contains(v) by {
            if locals.last().contains(v) {
                assert(locals[locals.len() - 1].contains(v));
            } else if !start.contains(v) {
                let i = choose|i: int| 0 <= i < front.len() && #[trigger] front[i].contains(v);
                assert(locals[i].contains(v));
            }
        }
        assert forall|v: Seq<char>| rhs.contains(v) implies lhs.contains(v) by {
            if !start.contains(v) {
                let i = choose|i: int| 0 <= i < locals.len() && #[trigger] locals[i].contains(v);
                if i < front.len() {
                    assert(front[i].contains(v));
                }
            }
        }
        assert(lhs =~= rhs);
    }
}

/// The order in which the per-file sets are merged does not matter: two
/// orders of the same sets give the same aggregate.
pub proof fn lemma_merge_order_independent(
    start: Set<Seq<char>>,
    first: Seq<Set<Seq<char>>>,
    second: Seq<Set<Seq<char>>>,
)
    requires
        first.to_multiset() == second.to_multiset(),
    ensures
        merged(start, first) == merged(start, second),
{
    lemma_merged_is_union(start, first);
    lemma_merged_is_union(start, second);
    first.to_multiset_ensures();
    second.to_multiset_ensures();
    assert forall|v: Seq<char>| union_of(first).contains(v) implies union_of(second).contains(
        v,
    ) by {
        let i = choose|i: int| 0 <= i < first.len() && #[trigger] first[i].contains(v);
        assert(first.contains(first[i]));
        assert(second.to_multiset().count(first[i]) > 0);
        assert(second.contains(first[i]));
        let j = choose|j: int| 0 <= j < second.len() && second[j] == first[i];
        assert(second[j].contains(v));
    }
    assert forall|v: Seq<char>| union_of(second).contains(v) implies union_of(first).contains(
        v,
    ) by {
        let i = choose|i: int| 0 <= i < second.len() && #[trigger] second[i].contains(v);
        assert(second.contains(second[i]));
        assert(first.to_multiset().count(second[i]) > 0);
        assert(first.contains(second[i]));
        let j = choose|j: int| 0 <= j < first.len() && first[j] == second[i];
        assert(first[j].contains(v));
    }
    assert(union_of(first) =~= union_of(second));
}

/// The run-wide collection. Workers merge their sets into it; nothing is
/// ever taken out.
pub struct ResultAggregator {
    global: ResultSet,
}

impl View for ResultAggregator {
    type V = Set<Seq<char>>;

    closed spec fn view(&self) -> Set<Seq<char>> {
        self.global@
    }
}

impl ResultAggregator {
    /// An aggregate that holds nothing.
    pub fn new() -> (a: ResultAggregator)
        ensures
            a@ == Set::<Seq<char>>::empty(),
    {
        ResultAggregator { global: ResultSet::new() }
    }

    /// Takes in one worker's set. What was held stays held, and a value
    /// that both hold is held once. An empty set changes nothing.
    pub fn merge(&mut self, local: ResultSet)
        ensures
            final(self)@ == old(self)@.union(local@),
            old(self)@.subset_of(final(self)@),
            local@ == Set::<Seq<char>>::empty() ==> final(self)@ == old(self)@,
    {
        self.global.merge(local);
        proof {
            if local@ == Set::<Seq<char>>::empty() {
                assert(old(self)@.union(local@) =~= old(self)@);
            }
        }
    }

    /// The number of distinct values held.
    pub fn len(&self) -> (n: usize)
        ensures
            self@.finite(),
            n == self@.len(),
    {
        self.global.len()
    }

    /// Ends the run: hands the collection over.
    pub fn into_result(self) -> (r: ResultSet)
        ensures
            r@ == self@,
    {
        self.global
    }
}

} // verus!
