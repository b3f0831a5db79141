use std::io::BufRead;
use field_extract::extract::Strategy;
use field_extract::outcome::Outcome;
use field_extract::results::ResultSet;
use field_extract::worker::{
    default_settings, extract_parse, find_line_end, FileWorker, InputFile, Settings, DEFAULT_LIMIT,
};

fn sorted(s: &ResultSet) -> Vec<String> {
    let mut v = s.values();
    v.sort();
    v
}

fn file(size: u64) -> InputFile {
    InputFile { path: "data/part.zst".to_string(), size }
}

fn scanning() -> Settings {
    Settings { field: "author".to_string(), strategy: Strategy::Scanning, limit: None }
}

#[test]
fn line_end_is_next_newline_or_end() {
    let data = b"ab\ncd\n\nef";
    assert_eq!(find_line_end(data, 0), 2);
    assert_eq!(find_line_end(data, 1), 2);
    assert_eq!(find_line_end(data, 2), 2);
    assert_eq!(find_line_end(data, 3), 5);
    assert_eq!(find_line_end(data, 6), 6);
    assert_eq!(find_line_end(data, 7), 9);
    assert_eq!(find_line_end(data, 9), 9);
    assert_eq!(find_line_end(b"", 0), 0);
}

#[test]
fn default_settings_follow_the_flag() {
    let json = default_settings(true);
    assert_eq!(json.field, "author");
    assert_eq!(json.strategy, Strategy::Structured);
    assert_eq!(json.limit, Some(20));
    assert_eq!(DEFAULT_LIMIT, 20);
    let scan = default_settings(false);
    assert_eq!(scan.field, "author");
    assert_eq!(scan.strategy, Strategy::Scanning);
    assert_eq!(scan.limit, None);
}

#[test]
fn distinct_values_are_all_counted() {
    let data = b"{\"author\":\"a\"}\n{\"id\":1}\n{\"author\":\"b\"}\n{\"author\":\"c\"}\n{\"x\":\"y\"}\n";
    for use_json in [true, false] {
        let found = extract_parse(data, use_json);
        assert_eq!(found.len(), 3);
        assert_eq!(sorted(&found), vec!["a", "b", "c"]);
    }
}

#[test]
fn repeated_value_is_held_once() {
    let data = b"{\"author\":\"alice\"}\n{\"author\":\"alice\"}\n{\"author\":\"alice\"}\n";
    for use_json in [true, false] {
        let found = extract_parse(data, use_json);
        assert_eq!(found.len(), 1);
        assert!(found.contains("alice"));
    }
}

#[test]
fn malformed_record_does_not_stop_the_file() {
    let data = b"{\"author\":\"alice\"}\n{\"author\":\nnot json at all\n{\"author\":\"bob\"}\n";
    for use_json in [true, false] {
        let found = extract_parse(data, use_json);
        assert_eq!(sorted(&found), vec!["alice", "bob"]);
    }
}

#[test]
fn last_record_needs_no_newline() {
    let data = b"{\"author\":\"alice\"}\n{\"author\":\"bob\"}";
    for use_json in [true, false] {
        assert_eq!(sorted(&extract_parse(data, use_json)), vec!["alice", "bob"]);
    }
}

#[test]
fn empty_input_and_blank_lines_yield_nothing() {
    for use_json in [true, false] {
        assert!(extract_parse(b"", use_json).is_empty());
        assert!(extract_parse(b"\n\n\n", use_json).is_empty());
    }
}

#[test]
fn empty_values_are_not_collected() {
    let data = b"{\"author\":\"\"}\n{\"author\":\"bob\"}\n";
    for use_json in [true, false] {
        assert_eq!(sorted(&extract_parse(data, use_json)), vec!["bob"]);
    }
}

#[test]
fn length_filter_rejects_25_characters() {
    let long = "abcdefghijklmnopqrstuvwxy";
    assert_eq!(long.len(), 25);
    let data = format!("{{\"author\":\"{}\"}}\n{{\"author\":\"short\"}}\n", long);
    let found = extract_parse(data.as_bytes(), true);
    assert!(!found.contains(long));
    assert_eq!(sorted(&found), vec!["short"]);

    let limited = Settings { field: "author".to_string(), strategy: Strategy::Scanning, limit: Some(20) };
    let mut worker = FileWorker::new(file(data.len() as u64), limited);
    worker.feed_all(data.as_bytes());
    let out = worker.finish();
    assert!(!out.values.contains(long));
    assert_eq!(sorted(&out.values), vec!["short"]);
}

#[test]
fn scanning_by_default_has_no_length_limit() {
    let long = "abcdefghijklmnopqrstuvwxy";
    let data = format!("{{\"author\":\"{}\"}}\n", long);
    let found = extract_parse(data.as_bytes(), false);
    assert!(found.contains(long));
}

#[test]
fn limit_of_exactly_20_is_accepted() {
    let twenty = "abcdefghijklmnopqrst";
    let data = format!("{{\"author\":\"{}\"}}\n", twenty);
    assert!(extract_parse(data.as_bytes(), true).contains(twenty));
}

#[test]
fn feed_reports_each_outcome() {
    let limited = Settings { field: "author".to_string(), strategy: Strategy::Structured, limit: Some(3) };
    let mut worker = FileWorker::new(file(10), limited);
    assert!(matches!(worker.feed(br#"{"author":"bob"}"#), Outcome::Value(ref v) if v == "bob"));
    assert!(matches!(worker.feed(br#"{"author":"carol"}"#), Outcome::Rejected));
    assert!(matches!(worker.feed(br#"{"name":"bob"}"#), Outcome::Absent));
    assert!(matches!(worker.feed(br#"{"author":"#), Outcome::Malformed));
    assert!(matches!(worker.feed(br#"{"author":"al"}"#), Outcome::Value(ref v) if v == "al"));
    let out = worker.finish();
    assert_eq!(out.size, 10);
    assert_eq!(sorted(&out.values), vec!["al", "bob"]);
}

#[test]
fn feeding_in_chunks_equals_feeding_at_once() {
    let mut by_line = FileWorker::new(file(1), scanning());
    by_line.feed(br#"{"author":"alice"}"#);
    by_line.feed(br#"{"author":"bob"}"#);
    let mut at_once = FileWorker::new(file(1), scanning());
    at_once.feed_all(b"{\"author\":\"alice\"}\n{\"author\":\"bob\"}\n");
    assert_eq!(sorted(&by_line.finish().values), sorted(&at_once.finish().values));
}

#[test]
fn other_field_names_can_be_looked_for() {
    let settings = Settings { field: "subreddit".to_string(), strategy: Strategy::Scanning, limit: None };
    let mut worker = FileWorker::new(file(1), settings);
    worker.feed_all(b"{\"author\":\"alice\",\"subreddit\":\"rust\"}\n");
    assert_eq!(worker.finish().values.values(), vec!["rust".to_string()]);
}

#[test]
fn failed_file_yields_empty_set_and_its_size() {
    let out = FileWorker::failed(file(4096));
    assert!(out.values.is_empty());
    assert_eq!(out.values.len(), 0);
    assert_eq!(out.size, 4096);
}

#[test]
fn worker_without_records_returns_size() {
    let out = FileWorker::new(file(77), scanning()).finish();
    assert!(out.values.is_empty());
    assert_eq!(out.size, 77);
}

#[test]
fn streamed_zstd_records_are_collected() {
    let plain = b"{\"author\":\"alice\"}\n{\"author\":\"bob\"}\n{\"author\":\n{\"author\":\"alice\"}\n";
    let packed = zstd::encode_all(&plain[..], 3).unwrap();
    assert_ne!(packed.as_slice(), &plain[..]);
    let mut decoder = zstd::stream::Decoder::with_buffer(std::io::BufReader::new(&packed[..])).unwrap();
    decoder.window_log_max(field_extract::worker::WINDOW_LOG_MAX).unwrap();
    let mut worker = FileWorker::new(file(packed.len() as u64), scanning());
    for record in std::io::BufReader::new(decoder).split(b'\n') {
        worker.feed(&record.unwrap());
    }
    let out = worker.finish();
    assert_eq!(out.size, packed.len() as u64);
    assert_eq!(sorted(&out.values), vec!["alice", "bob"]);
    assert_eq!(sorted(&extract_parse(plain, false)), vec!["alice", "bob"]);
}

#[test]
fn decoder_window_is_two_to_the_31() {
    assert_eq!(field_extract::worker::WINDOW_LOG_MAX, 31);
}
