//! Errors of folding events into a read model.
use vstd::prelude::*;

use crate::json::json_error_message;
use crate::types::EventType;

verus! {

/// Errors that can occur while events are folded into a read model.
#[derive(Debug)]
pub enum ProjectionError {
    /// An event type that has no schema record.
    UnknownEventType(EventType),
    /// A handler's JSON path selects nothing in an event's payload.
    FieldNotFound { event_type: EventType, path: String },
    /// A JSON path that does not parse.
    InvalidPath { path: String },
    /// The folded state does not deserialize into the read model.
    DeserializationFailed(serde_json::Error),
    /// A numeric handler met a value of another type.
    TypeMismatch { field: String, actual: String },
}

impl ProjectionError {
    /// The error's message, naming what it is about. A deserialization
    /// failure's message ends with the JSON error's own text.
    pub fn message(&self) -> (result: String)
        ensures
            self is DeserializationFailed ==> "deserialization failed: "@.is_prefix_of(result@),
            !(self is DeserializationFailed) ==> result@ == match self {
                ProjectionError::UnknownEventType(et) => "unknown event type '"@ + et@ + "' has no EventSchemaDef"@,
                ProjectionError::FieldNotFound { event_type, path } => "json path '"@ + path@
                    + "' not found in payload for event type '"@ + event_type@ + "'"@,
                ProjectionError::InvalidPath { path } => "invalid JSON path expression '"@ + path@ + "'"@,
                ProjectionError::DeserializationFailed(_) => Seq::empty(),
                ProjectionError::TypeMismatch { field, actual } => "type mismatch on field '"@ + field@
                    + "': expected numeric, got "@ + actual@,
            },
    {
        match self {
            ProjectionError::UnknownEventType(et) => {
                let mut m = String::from_str("unknown event type '");
                m.append(et.as_str());
                m.append("' has no EventSchemaDef");
                m
            },
            ProjectionError::FieldNotFound { event_type, path } => {
                let mut m = String::from_str("json path '");
                m.append(path.as_str());
                m.append("' not found in payload for event type '");
                m.append(event_type.as_str());
                m.append("'");
                m
            },
            ProjectionError::InvalidPath { path } => {
                let mut m = String::from_str("invalid JSON path expression '");
                m.append(path.as_str());
                m.append("'");
                m
            },
            ProjectionError::DeserializationFailed(e) => {
                let mut m = String::from_str("deserialization failed: ");
                let text = json_error_message(e);
                let ghost head = m@;
                m.append(text.as_str());
                assert(m@.subrange(0, head.len() as int) =~= head);
                m
            },
            ProjectionError::TypeMismatch { field, actual } => {
                let mut m = String::from_str("type mismatch on field '");
                m.append(field.as_str());
                m.append("': expected numeric, got ");
                m.append(actual.as_str());
                m
            },
        }
    }
}

impl From<serde_json::Error> for ProjectionError {
    fn from(e: serde_json::Error) -> (result: ProjectionError) {
        ProjectionError::DeserializationFailed(e)
    }
}

impl vstd::std_specs::convert::FromSpecImpl<serde_json::Error> for ProjectionError {
    open spec fn obeys_from_spec() -> bool {
        true
    }

    open spec fn from_spec(e: serde_json::Error) -> ProjectionError {
        ProjectionError::DeserializationFailed(e)
    }
}

} // verus!
