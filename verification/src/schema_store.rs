//! The error of the store that records event schemas.
use vstd::prelude::*;

verus! {

/// Error of a schema store operation.
#[derive(Debug, Clone, PartialEq, Eq)]
pub enum EventSchemaError {
    StorageFailure(String),
}

impl EventSchemaError {
    /// The error's message: `storage failure: ` followed by the backend's text.
    pub fn message(&self) -> (result: String)
        ensures
            match self {
                EventSchemaError::StorageFailure(m) => result@ == "storage failure: "@ + m@,
            },
    {
        match self {
            EventSchemaError::StorageFailure(m) => {
                let mut text = String::from_str("storage failure: ");
                text.append(m.as_str());
                text
            },
        }
    }
}

} // verus!
