//! What can be wrong with a configuration or a query.

use vstd::prelude::*;

verus! {

/// Why a configuration was rejected. Once a configuration is accepted,
/// organizing cannot fail.
#[derive(Debug)]
pub enum ConfigError {
    /// A filter or sorter is not a valid regular expression.
    InvalidPattern {
        /// The pattern as it was written.
        source: String,
        /// What the `regex` crate said of it.
        error: regex::Error,
    },
    /// A repository is not written as `user/repo`.
    InvalidRepo {
        /// The repository as it was written.
        source: String,
    },
}

/// Why a query for issues was rejected.
#[derive(Debug, Clone, Copy, PartialEq, Eq)]
pub enum QueryError {
    /// The query does not have exactly one `/`.
    NoRepo,
    /// The part after the `/` has more than one `#`.
    ManyIssues,
    /// The part after the `#` is not a number that fits.
    BadNumber,
}

} // verus!
