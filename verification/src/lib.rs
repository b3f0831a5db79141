//! Extraction of one recurring string field from newline-delimited JSON
//! records, with per-file deduplication, a run-wide merge of the per-file
//! results, bounded admission of concurrent workers and byte-weighted
//! progress accounting.

pub mod extract;
pub mod outcome;
pub mod progress;
pub mod results;
pub mod run;
pub mod scan;
pub mod scheduler;
pub mod worker;
pub mod worklist;
