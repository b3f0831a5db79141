//! The work done for one file: split the decoded bytes into records, read
//! the field from each, and collect the accepted values without repeats.

use crate::extract::extract_field;
use crate::extract::record_outcome;
use crate::extract::Strategy;
use crate::outcome::Outcome;
use crate::results::ResultSet;
use vstd::prelude::*;
use vstd::slice::slice_subrange;

verus! {

/// The byte that ends a record.
pub const NEWLINE: u8 = 0x0a;

/// The longest value, in characters, that the structured strategy accepts
/// by default.
pub const DEFAULT_LIMIT: usize = 20;

/// The largest window, as a power of two, that a decoder of the input
/// files must accept: their frames are written with long-distance
/// matching, beyond what a decoder takes by default.
pub const WINDOW_LOG_MAX: u32 = 31;

/// One candidate file: where it is and how many bytes it has on disk.
#[derive(Clone, Debug)]
pub struct InputFile {
    pub path: String,
    pub size: u64,
}

/// What is looked for and how.
#[derive(Clone, Debug)]
pub struct Settings {
    pub field: String,
    pub strategy: Strategy,
    pub limit: Option<usize>,
}

/// What is looked for and how, as contracts see it.
pub struct Lookup {
    pub field: Seq<char>,
    pub strategy: Strategy,
    pub limit: Option<usize>,
}

impl View for Settings {
    type V = Lookup;

    open spec fn view(&self) -> Lookup {
        Lookup { field: self.field@, strategy: self.strategy, limit: self.limit }
    }
}

/// What a worker hands back: the file's distinct values and the file's
/// size, the weight by which progress advances.
pub struct WorkerOutput {
    pub values: ResultSet,
    pub size: u64,
}

/// The accepted value of one record under `settings`, if it has one.
pub open spec fn value_in(settings: Lookup, record: Seq<u8>) -> Option<Seq<char>> {
    record_outcome(record, settings.field, settings.strategy, settings.limit).value()
}

/// The values that a run of records yields: those that some record has.
pub open spec fn collected(settings: Lookup, records: Seq<Seq<u8>>) -> Set<Seq<char>> {
    Set::new(
        |v: Seq<char>|
            exists|i: int|
                0 <= i < records.len() && #[trigger] value_in(settings, records[i]) == Some(v),
    )
}

/// A set with one more record's value, where it has one.
pub open spec fn with_value(found: Set<Seq<char>>, value: Option<Seq<char>>) -> Set<Seq<char>> {
    match value {
        Some(v) => found.insert(v),
        None => found,
    }
}

/// The number of bytes from index `from` up to the next newline, or to
/// the end of `data` where there is none.
pub open spec fn record_len(data: Seq<u8>, from: int) -> nat
    decreases data.len() - from,
{
    if from < 0 || from >= data.len() || data[from] == NEWLINE {
        0
    } else {
        1 + record_len(data, from + 1)
    }
}

/// The index of the first newline at or after `from`, or the length of
/// `data` where there is none.
pub open spec fn line_end(data: Seq<u8>, from: int) -> int {
    from + record_len(data, from)
}

/// The records of `data` from index `pos` on: the stretches between
/// newlines. A newline at the very end opens no further record.
pub open spec fn records_from(data: Seq<u8>, pos: int) -> Seq<Seq<u8>>
    decreases data.len() - pos,
{
    if pos < 0 || pos >= data.len() {
        Seq::empty()
    } else {
        let end = line_end(data, pos);
        if end >= data.len() {
            seq![data.subrange(pos, data.len() as int)]
        } else {
            seq![data.subrange(pos, end)] + records_from(data, end + 1)
        }
    }
}

/// The records of `data`.
pub open spec fn records(data: Seq<u8>) -> Seq<Seq<u8>> {
    records_from(data, 0)
}

/// `line_end` stops at the first newline: nothing before it is one, and
/// it is either a newline or the end of the data.
pub proof fn lemma_line_end(data: Seq<u8>, from: int)
    requires
        0 <= from <= data.len(),
    ensures
        from <= line_end(data, from) <= data.len(),
        forall|k: int| from <= k < line_end(data, from) ==> data[k] != NEWLINE,
        line_end(data, from) < data.len() ==> data[line_end(data, from)] == NEWLINE,
    decreases data.len() - from,
{
    if from < data.len() && data[from] != NEWLINE {
        lemma_line_end(data, from + 1);
    }
}

/// One more record adds its value, if it has one, to what was collected.
pub proof fn lemma_collected_push(settings: Lookup, records: Seq<Seq<u8>>, record: Seq<u8>)
    ensures
        collected(settings, records.push(record)) == with_value(
            collected(settings, records),
            value_in(settings, record),
        ),
{
    let longer = records.push(record);
    let lhs = collected(settings, longer);
    let rhs = with_value(collected(settings, records), value_in(settings, record));
    assert forall|v: Seq<char>| lhs.contains(v) implies rhs.contains(v) by {
        let i = choose|i: int|
            0 <= i < longer.len() && #[trigger] value_in(settings, longer[i]) == Some(v);
        if i < records.len() {
            assert(longer[i] == records[i]);
            assert(value_in(settings, records[i]) == Some(v));
        }
    }
    assert forall|v: Seq<char>| rhs.contains(v) implies lhs.contains(v) by {
        if collected(settings, records).contains(v) {
            let i = choose|i: int|
                0 <= i < records.len() && #[trigger] value_in(settings, records[i]) == Some(v);
            assert(longer[i] == records[i]);
            assert(value_in(settings, longer[i]) == Some(v));
        } else {
            assert(longer[records.len() as int] == record);
            assert(value_in(settings, longer[records.len() as int]) == Some(v));
        }
    }
    assert(lhs =~= rhs);
}

/// The number of records that have a value.
pub open spec fn with_values(settings: Lookup, records: Seq<Seq<u8>>) -> nat
    decreases records.len(),
{
    if records.len() == 0 {
        0
    } else {
        with_values(settings, records.drop_last()) + if value_in(
            settings,
            records.last(),
        ).is_some() {
            1nat
        } else {
            0nat
        }
    }
}

/// Where the records that have a value all have different ones, as many
/// values are collected as there are such records.
pub proof fn lemma_distinct_values_counted(settings: Lookup, records: Seq<Seq<u8>>)
    requires
        forall|i: int, j: int|
            0 <= i < j < records.len() && value_in(settings, records[i]).is_some() ==> value_in(
                settings,
                records[i],
            ) != value_in(settings, records[j]),
    ensures
        collected(settings, records).finite(),
        collected(settings, records).len() == with_values(settings, records),
    decreases records.len(),
{
    if records.len() == 0 {
        assert(collected(settings, records) =~= Set::<Seq<char>>::empty());
    } else {
        let front = records.drop_last();
        let last = records.last();
        assert(front.push(last) =~= records);
        assert forall|i: int, j: int|
            0 <= i < j < front.len() && value_in(settings, front[i]).is_some() implies value_in(
            settings,
            front[i],
        ) != value_in(settings, front[j]) by {
            assert(front[i] == records[i] && front[j] == records[j]);
        }
        lemma_distinct_values_counted(settings, front);
        lemma_collected_push(settings, front, last);
        if let Some(v) = value_in(settings, last) {
            if collected(settings, front).contains(v) {
                let i = choose|i: int|
                    0 <= i < front.len() && #[trigger] value_in(settings, front[i]) == Some(v);
                assert(front[i] == records[i]);
                assert(value_in(settings, records[i]) != value_in(
                    settings,
                    records[records.len() - 1],
                ));
            }
        }
    }
}

/// A record whose value an earlier record had adds nothing: a value that
/// occurs many times is held once.
pub proof fn lemma_repeated_value_held_once(
    settings: Lookup,
    records: Seq<Seq<u8>>,
    record: Seq<u8>,
)
    requires
        exists|i: int|
            0 <= i < records.len() && #[trigger] value_in(settings, records[i]) == value_in(
                settings,
                record,
            ),
    ensures
        collected(settings, records.push(record)) == collected(settings, records),
{
    lemma_collected_push(settings, records, record);
    if let Some(v) = value_in(settings, record) {
        let i = choose|i: int|
            0 <= i < records.len() && #[trigger] value_in(settings, records[i]) == value_in(
                settings,
                record,
            );
        assert(collected(settings, records).contains(v));
        assert(collected(settings, records).insert(v) =~= collected(settings, records));
    }
}

/// A record without a value, be it malformed, without the field or turned
/// down by the filter, is passed over: the records around it yield what
/// they yield without it.
pub proof fn lemma_record_without_value_skipped(
    settings: Lookup,
    before: Seq<Seq<u8>>,
    record: Seq<u8>,
    after: Seq<Seq<u8>>,
)
    requires
        value_in(settings, record).is_none(),
    ensures
        collected(settings, before.push(record) + after) == collected(settings, before + after),
{
    let with = before.push(record) + after;
    let without = before + after;
    let lhs = collected(settings, with);
    let rhs = collected(settings, without);
    assert forall|v: Seq<char>| lhs.contains(v) implies rhs.contains(v) by {
        let i = choose|i: int|
            0 <= i < with.len() && #[trigger] value_in(settings, with[i]) == Some(v);
        if i < before.len() {
            assert(without[i] == with[i]);
            assert(value_in(settings, without[i]) == Some(v));
        } else {
            assert(i != before.len());
            assert(without[i - 1] == with[i]);
            assert(value_in(settings, without[i - 1]) == Some(v));
        }
    }
    assert forall|v: Seq<char>| rhs.contains(v) implies lhs.contains(v) by {
        let i = choose|i: int|
            0 <= i < without.len() && #[trigger] value_in(settings, without[i]) == Some(v);
        if i < before.len() {
            assert(with[i] == without[i]);
            assert(value_in(settings, with[i]) == Some(v));
        } else {
            assert(with[i + 1] == without[i]);
            assert(value_in(settings, with[i + 1]) == Some(v));
        }
    }
    assert(lhs =~= rhs);
}

/// Finds the end of the record that starts at `from`.
pub fn find_line_end(data: &[u8], from: usize) -> (end: usize)
    requires
        from <= data.len(),
    ensures
        end == line_end(data@, from as int),
        from <= end <= data.len(),
{
    let mut k: usize = from;
    while k < data.len() && data[k] != NEWLINE
        invariant
            from <= k <= data.len(),
            line_end(data@, from as int) == line_end(data@, k as int),
        decreases data.len() - k,
    {
        k += 1;
    }
    proof {
        lemma_line_end(data@, from as int);
    }
    k
}

/// The worker for one file. It is fed the file's records, in any
/// chunking, and keeps the distinct accepted values.
pub struct FileWorker {
    file: InputFile,
    settings: Settings,
    found: ResultSet,
}

impl FileWorker {
    /// The values found so far.
    pub closed spec fn found(&self) -> Set<Seq<char>> {
        self.found@
    }

    /// What the worker looks for.
    pub closed spec fn settings(&self) -> Lookup {
        self.settings@
    }

    /// The file that the worker reads.
    pub closed spec fn file(&self) -> InputFile {
        self.file
    }

    /// A worker that has seen no record yet.
    pub fn new(file: InputFile, settings: Settings) -> (w: FileWorker)
        ensures
            w.found() == Set::<Seq<char>>::empty(),
            w.settings() == settings@,
            w.file() == file,
    {
        FileWorker { file, settings, found: ResultSet::new() }
    }

    /// Reads one record. Its value, if it has one, joins the values found;
    /// a record without one changes nothing, and the next can be fed.
    pub fn feed(&mut self, record: &[u8]) -> (r: Outcome<String>)
        ensures
            r@ == record_outcome(
                record@,
                old(self).settings().field,
                old(self).settings().strategy,
                old(self).settings().limit,
            ),
            final(self).found() == with_value(
                old(self).found(),
                value_in(old(self).settings(), record@),
            ),
            final(self).settings() == old(self).settings(),
            final(self).file() == old(self).file(),
    {
        let r = extract_field(
            record,
            self.settings.field.as_str(),
            self.settings.strategy,
            self.settings.limit,
        );
        match &r {
            Outcome::Value(text) => {
                self.found.insert(text.as_str());
            },
            _ => {},
        }
        r
    }

    /// Reads every record of `data`.
    pub fn feed_all(&mut self, data: &[u8])
        ensures
            final(self).found() == old(self).found().union(
                collected(old(self).settings(), records(data@)),
            ),
            final(self).settings() == old(self).settings(),
            final(self).file() == old(self).file(),
    {
        let ghost base = self.found();
        let ghost settings = self.settings();
        let ghost mut done: Seq<Seq<u8>> = Seq::empty();
        let mut pos: usize = 0;
        assert(base.union(collected(settings, done)) =~= base);
        assert(done + records_from(data@, 0) =~= records(data@));
        while pos < data.len()
            invariant
                pos <= data.len(),
                self.settings() == settings,
                settings == old(self).settings(),
                base == old(self).found(),
                self.file() == old(self).file(),
                self.found() == base.union(collected(settings, done)),
                records(data@) == done + records_from(data@, pos as int),
            decreases data.len() - pos,
        {
            let end = find_line_end(data, pos);
            let record = slice_subrange(data, pos, end);
            let ghost before = self.found();
            self.feed(record);
            proof {
                lemma_collected_push(settings, done, record@);
                let next = done.push(record@);
                assert(base.union(collected(settings, next)) =~= with_value(
                    before,
                    value_in(settings, record@),
                ));
                if end < data.len() {
                    assert(next + records_from(data@, end + 1) =~= done + records_from(
                        data@,
                        pos as int,
                    ));
                } else {
                    assert(next =~= done + records_from(data@, pos as int));
                }
                done = next;
            }
            if end == data.len() {
                return ;
            }
            pos = end + 1;
        }
        assert(done + records_from(data@, pos as int) =~= done);
    }

    /// Ends the work: the values found, with the file's size.
    pub fn finish(self) -> (out: WorkerOutput)
        ensures
            out.values@ == self.found(),
            out.size == self.file().size,
    {
        WorkerOutput { values: self.found, size: self.file.size }
    }

    /// The output for a file that could not be opened or decoded: no
    /// values, and the file's size all the same.
    pub fn failed(file: InputFile) -> (out: WorkerOutput)
        ensures
            out.values@ == Set::<Seq<char>>::empty(),
            out.size == file.size,
    {
        WorkerOutput { values: ResultSet::new(), size: file.size }
    }
}

/// What `extract_parse` looks for: the field `author`, read by the
/// structured strategy with the default limit where `use_json` is set, and
/// by the scanning strategy without a limit where it is not.
pub open spec fn default_lookup(use_json: bool) -> Lookup {
    Lookup {
        field: "author"@,
        strategy: if use_json {
            Strategy::Structured
        } else {
            Strategy::Scanning
        },
        limit: if use_json {
            Some(DEFAULT_LIMIT)
        } else {
            None
        },
    }
}

/// The settings that `default_lookup` describes.
pub fn default_settings(use_json: bool) -> (settings: Settings)
    ensures
        settings@ == default_lookup(use_json),
{
    if use_json {
        Settings {
            field: "author".to_owned(),
            strategy: Strategy::Structured,
            limit: Some(DEFAULT_LIMIT),
        }
    } else {
        Settings { field: "author".to_owned(), strategy: Strategy::Scanning, limit: None }
    }
}

/// The distinct values of the field `author` in the records of `data`,
/// the decoded content of one file.
pub fn extract_parse(data: &[u8], use_json: bool) -> (found: ResultSet)
    ensures
        found@ == collected(default_lookup(use_json), records(data@)),
{
    let file = InputFile { path: String::new(), size: data.len() as u64 };
    let mut worker = FileWorker::new(file, default_settings(use_json));
    worker.feed_all(data);
    assert(worker.found() =~= collected(default_lookup(use_json), records(data@)));
    worker.finish().values
}

} // verus!
