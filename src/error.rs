//! Errors of index construction and of queries.
use vstd::prelude::*;

verus! {

/// Why the index could not be built; fatal at startup.
#[derive(Debug, Clone, Copy, PartialEq, Eq, Structural)]
pub enum BuildError {
    /// A row lacks a mandatory column (its zero-based index).
    MissingColumn(usize),
    /// A record identifier is not a decimal `u64`.
    InvalidIdentifier,
    /// The tab-separated reader refused the input.
    UnreadableRows,
    /// The transducer refused the terms.
    IndexConstruction,
}

/// Why a query was refused.
#[derive(Debug, Clone, PartialEq, Eq)]
pub enum QueryError {
    /// The query string was empty.
    EmptyQuery,
    /// The regular expression did not compile; the compiler's description.
    InvalidRegex(String),
    /// The edit-distance automaton would need more states than the limit given.
    TooManyStates(usize),
}

} // verus!
