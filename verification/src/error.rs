//! The errors that abort a counting pass.

use vstd::prelude::*;

verus! {

/// Why a counting pass was abandoned.
#[derive(Clone, Copy, Debug, PartialEq, Eq, Structural)]
pub enum StatsError {
    /// A project's repository reference is missing or is not of the form
    /// `https://github.com/<owner>/<repo>`.
    Configuration,
    /// A counted pull request carries a creation time that is missing or is
    /// not an RFC 3339 timestamp.
    MalformedTimestamp,
}

} // verus!
