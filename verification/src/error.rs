//! Errors of the indexing library.
use vstd::prelude::*;

verus! {

/// Why an indexing step failed.
#[derive(Debug, PartialEq, Eq, Clone)]
pub enum IndexingError {
    /// No job is mapped to the requested function name.
    UnknownFunction(String),
    /// The index's schedule names no settings file.
    MissingSettingPath,
    /// The table of indexing times holds no row for the index.
    EmptyIndexInfo,
    /// The search engine named no index behind the alias.
    AliasIndexNameMissing,
    /// The search engine returned no document that holds an indexing time.
    NoIndexedTime,
    /// An indexed document's time is not written as store documents write it; the text.
    InvalidIndexTime(String),
    /// A schedule's cron expression does not parse; the expression.
    InvalidCron(String),
    /// No database connection could be checked out of the pool; the pool's message.
    ConnectionPool(String),
}

} // verus!
