//! The append condition and the errors of append and read operations.
use vstd::prelude::*;

use crate::query::Query;
use crate::types::{decimal, GlobalSequenceId};

verus! {

/// Condition for optimistic concurrency on append: the append fails if any
/// event matching `query` was appended after position `after`.
#[derive(Debug, Clone, PartialEq, Eq)]
pub struct AppendCondition {
    pub query: Query,
    pub after: GlobalSequenceId,
}

/// Error of an append. A concurrency conflict names the first conflicting
/// event's position and the position that was checked; a storage failure
/// carries the backend's message.
#[derive(Debug, Clone, PartialEq, Eq)]
pub enum AppendError {
    ConcurrencyConflict { conflicting_position: GlobalSequenceId, checked_after: GlobalSequenceId },
    StorageFailure(String),
}

/// The message of a concurrency conflict.
pub open spec fn conflict_text(conflicting_position: GlobalSequenceId, checked_after: GlobalSequenceId) -> Seq<char> {
    "concurrency conflict: event at position "@ + decimal(conflicting_position@ as nat)
        + " matched query after position "@ + decimal(checked_after@ as nat)
}

/// Builds the message of a concurrency conflict.
pub fn conflict_message(conflicting_position: GlobalSequenceId, checked_after: GlobalSequenceId) -> (result: String)
    ensures
        result@ == conflict_text(conflicting_position, checked_after),
{
    let mut m = String::from_str("concurrency conflict: event at position ");
    let at = conflicting_position.to_text();
    m.append(at.as_str());
    m.append(" matched query after position ");
    let after = checked_after.to_text();
    m.append(after.as_str());
    m
}

impl AppendError {
    /// The error's message.
    pub fn message(&self) -> (result: String)
        ensures
            result@ == match self {
                AppendError::ConcurrencyConflict { conflicting_position, checked_after } =>
                    conflict_text(*conflicting_position, *checked_after),
                AppendError::StorageFailure(m) => "storage failure: "@ + m@,
            },
    {
        match self {
            AppendError::ConcurrencyConflict { conflicting_position, checked_after } =>
                conflict_message(*conflicting_position, *checked_after),
            AppendError::StorageFailure(source) => {
                let mut m = String::from_str("storage failure: ");
                m.append(source.as_str());
                m
            },
        }
    }
}

/// Error of a read operation (a failing connection, an error in the middle
/// of a stream); distinct from `AppendError`.
#[derive(Debug, Clone, PartialEq, Eq)]
pub enum StoreError {
    Storage(String),
}

impl StoreError {
    /// The error's message.
    pub fn message(&self) -> (result: String)
        ensures
            match self {
                StoreError::Storage(m) => result@ == "storage error: "@ + m@,
            },
    {
        match self {
            StoreError::Storage(source) => {
                let mut m = String::from_str("storage error: ");
                m.append(source.as_str());
                m
            },
        }
    }
}

} // verus!
