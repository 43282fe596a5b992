//! The failures that end a computation of statistics.

use vstd::prelude::*;
use vstd::string::*;

use crate::id::{hex, CommitId};

verus! {

/// Why no statistics could be given. A count over a part of the history
/// would be a wrong count, so each of these ends the computation.
#[derive(Clone, Debug, PartialEq, Eq)]
pub enum StatsError {
    /// The store could not be read at all: its references or branches could
    /// not be listed.
    StoreUnavailable { detail: String },
    /// A commit that the walk had reached is not in the store.
    MissingCommit { id: CommitId },
    /// A commit that the walk had reached is in the store and cannot be decoded.
    CorruptCommit { id: CommitId, detail: String },
}

/// The failure in words.
pub open spec fn description(error: StatsError) -> Seq<char> {
    match error {
        StatsError::StoreUnavailable { detail } => "the repository cannot be read: "@ + detail@,
        StatsError::MissingCommit { id } => "commit "@ + hex(id.bytes@) + " is missing"@,
        StatsError::CorruptCommit { id, detail } => "commit "@ + hex(id.bytes@)
            + " cannot be read: "@ + detail@,
    }
}

impl StatsError {
    /// Says in words what failed.
    pub fn describe(&self) -> (text: String)
        ensures
            text@ == description(*self),
    {
        match self {
            StatsError::StoreUnavailable { detail } => {
                let mut text = String::from_str("the repository cannot be read: ");
                text.append(detail.as_str());
                text
            },
            StatsError::MissingCommit { id } => {
                let mut text = String::from_str("commit ");
                text.append(id.to_hex().as_str());
                text.append(" is missing");
                text
            },
            StatsError::CorruptCommit { id, detail } => {
                let mut text = String::from_str("commit ");
                text.append(id.to_hex().as_str());
                text.append(" cannot be read: ");
                text.append(detail.as_str());
                text
            },
        }
    }
}

} // verus!
