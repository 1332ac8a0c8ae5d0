//! A filesystem search library: it compiles substring matchers for file
//! names and file contents, decides per directory entry what work a search
//! run owes it, and scans file bytes for query occurrences, reporting each
//! with its 1-based line number and the text of the enclosing line.
//!
//! Traversal, memory mapping and event delivery are left to a driver; the
//! decisions and the scanning are verified here.

pub mod bytes;
pub mod engine;
pub mod matcher;
pub mod options;
pub mod scanner;

pub use engine::is_important;
pub use engine::step_entry;
pub use engine::EntryMeta;
pub use engine::StepOutcome;
pub use matcher::MatcherSet;
pub use options::SearchError;
pub use options::SearchOptions;
pub use options::SearchResult;
pub use scanner::scan_content;
