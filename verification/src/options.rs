//! Public data types of the search library: the configuration a caller
//! supplies, the events a run produces, and the errors it can report.

use vstd::prelude::*;

verus! {

/// Errors a search run can report.
///
/// Only `PatternError` is produced by the library itself (when a matcher
/// cannot be compiled). `Io` and `MapError` describe failures of file
/// system work that a driver performs around the library; traversal and
/// mapping failures are recovered locally and never end a run.
#[derive(Debug)]
pub enum SearchError {
    Io(String),
    MapError(String),
    PatternError,
}

/// One event of a search run's result stream.
///
/// `ContentMatch` reports one occurrence of the text query inside a file,
/// with its 1-based line number and the full text of the enclosing line.
/// `FileNameMatch` reports a file whose name contains the filename query.
/// `ProgressUpdate` carries a batched count of entries visited.
#[derive(Debug, Clone)]
pub enum SearchResult {
    ContentMatch { path: String, line_number: usize, line_text: String },
    FileNameMatch { path: String },
    ProgressUpdate(usize),
}

/// Configuration of one search run, immutable for its duration.
///
/// An absent or empty `text_query` means no content scanning is done.
/// An absent or empty `file_query` means every entry passes the name test.
/// `ignore_case` asks for ASCII-only case folding in both matchers.
/// `max_depth` bounds traversal depth, inclusive, with the root at depth 0.
/// `file_types` is a comma-separated extension allow-list; a blank value
/// means no extension filter.
pub struct SearchOptions {
    pub root: String,
    pub text_query: Option<String>,
    pub file_query: Option<String>,
    pub ignore_case: bool,
    pub max_depth: usize,
    pub file_types: Option<String>,
}

} // verus!
