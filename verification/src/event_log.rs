//! The decisions of the event log facade: how append errors surface, how a
//! stream is reduced to one event or its first event, and how schemas found in
//! code are checked against the recorded ones.
use vstd::prelude::*;

use crate::error::{conflict_message, conflict_text, AppendError, StoreError};
use crate::event::StoredEvent;
use crate::schema::{compatible_views, EventSchemaDef, EventSchemaView};
use crate::schema_store::EventSchemaError;
use crate::types::{EventType, GlobalSequenceId};

verus! {

/// Error of an event log operation.
#[derive(Debug, Clone, PartialEq, Eq)]
pub enum EventLogError {
    ConcurrencyConflict { conflicting_position: GlobalSequenceId, checked_after: GlobalSequenceId },
    StorageFailure(String),
    SchemaConflict { event_type: EventType, expected: EventSchemaDef, actual: EventSchemaDef },
}

/// Error of reducing an event stream to exactly one event.
#[derive(Debug, Clone, PartialEq, Eq)]
pub enum StreamError {
    Empty,
    Multiple,
    Store(StoreError),
}

/// Result of checking the schemas of the code against the recorded ones.
#[derive(Debug, Clone, PartialEq, Eq)]
pub enum SchemaConflictError {
    Conflict { event_type: EventType, expected: EventSchemaDef, actual: EventSchemaDef },
    StorageFailure(String),
}

impl EventLogError {
    /// The error's message.
    pub fn message(&self) -> (result: String)
        ensures
            result@ == match self {
                EventLogError::ConcurrencyConflict { conflicting_position, checked_after } =>
                    conflict_text(*conflicting_position, *checked_after),
                EventLogError::StorageFailure(m) => "storage failure: "@ + m@,
                EventLogError::SchemaConflict { event_type, .. } => "schema conflict for event type '"@ + event_type@ + "'"@,
            },
    {
        match self {
            EventLogError::ConcurrencyConflict { conflicting_position, checked_after } =>
                conflict_message(*conflicting_position, *checked_after),
            EventLogError::StorageFailure(source) => {
                let mut m = String::from_str("storage failure: ");
                m.append(source.as_str());
                m
            },
            EventLogError::SchemaConflict { event_type, .. } => {
                let mut m = String::from_str("schema conflict for event type '");
                m.append(event_type.as_str());
                m.append("'");
                m
            },
        }
    }
}

impl StreamError {
    /// The error's message.
    pub fn message(&self) -> (result: String)
        ensures
            result@ == match self {
                StreamError::Empty => "stream was empty, expected exactly one event"@,
                StreamError::Multiple => "stream had multiple events, expected exactly one"@,
                StreamError::Store(StoreError::Storage(m)) => "stream error: "@ + ("storage error: "@ + m@),
            },
    {
        match self {
            StreamError::Empty => String::from_str("stream was empty, expected exactly one event"),
            StreamError::Multiple => String::from_str("stream had multiple events, expected exactly one"),
            StreamError::Store(e) => {
                let mut m = String::from_str("stream error: ");
                let inner = e.message();
                m.append(inner.as_str());
                m
            },
        }
    }
}

impl From<StoreError> for StreamError {
    fn from(e: StoreError) -> (result: StreamError) {
        StreamError::Store(e)
    }
}

impl vstd::std_specs::convert::FromSpecImpl<StoreError> for StreamError {
    open spec fn obeys_from_spec() -> bool {
        true
    }

    open spec fn from_spec(e: StoreError) -> StreamError {
        StreamError::Store(e)
    }
}

/// How an append error of the store surfaces at the event log: variant by
/// variant, with the same fields.
pub fn map_append_error(error: AppendError) -> (result: EventLogError)
    ensures
        match error {
            AppendError::ConcurrencyConflict { conflicting_position, checked_after } =>
                result == (EventLogError::ConcurrencyConflict { conflicting_position, checked_after }),
            AppendError::StorageFailure(m) => result == EventLogError::StorageFailure(m),
        },
{
    match error {
        AppendError::ConcurrencyConflict { conflicting_position, checked_after } =>
            EventLogError::ConcurrencyConflict { conflicting_position, checked_after },
        AppendError::StorageFailure(source) => EventLogError::StorageFailure(source),
    }
}

/// What `single` does with the first item of the stream: fails on an empty
/// stream or an error; otherwise it holds the event and reads a second item.
pub fn single_first_step(item: Option<Result<StoredEvent, StoreError>>) -> (result: Result<StoredEvent, StreamError>)
    ensures
        match item {
            None => result == Err::<StoredEvent, StreamError>(StreamError::Empty),
            Some(Err(e)) => result == Err::<StoredEvent, StreamError>(StreamError::Store(e)),
            Some(Ok(event)) => result == Ok::<StoredEvent, StreamError>(event),
        },
{
    match item {
        None => Err(StreamError::Empty),
        Some(Err(e)) => Err(StreamError::Store(e)),
        Some(Ok(event)) => Ok(event),
    }
}

/// What `single` does with the second item, holding the first event: the
/// held event is the answer when the stream ends there.
pub fn single_second_step(held: StoredEvent, item: Option<Result<StoredEvent, StoreError>>) -> (result: Result<StoredEvent, StreamError>)
    ensures
        match item {
            None => result == Ok::<StoredEvent, StreamError>(held),
            Some(Err(e)) => result == Err::<StoredEvent, StreamError>(StreamError::Store(e)),
            Some(Ok(_)) => result == Err::<StoredEvent, StreamError>(StreamError::Multiple),
        },
{
    match item {
        None => Ok(held),
        Some(Err(e)) => Err(StreamError::Store(e)),
        Some(Ok(_)) => Err(StreamError::Multiple),
    }
}

/// What `first` does with the first item of the stream.
pub fn first_step(item: Option<Result<StoredEvent, StoreError>>) -> (result: Result<Option<StoredEvent>, StoreError>)
    ensures
        match item {
            None => result == Ok::<Option<StoredEvent>, StoreError>(None),
            Some(Err(e)) => result == Err::<Option<StoredEvent>, StoreError>(e),
            Some(Ok(event)) => result == Ok::<Option<StoredEvent>, StoreError>(Some(event)),
        },
{
    match item {
        None => Ok(None),
        Some(Err(e)) => Err(e),
        Some(Ok(event)) => Ok(Some(event)),
    }
}

/// The recorded schema that counts for `event_type`: the last record of that
/// type (a later record replaces an earlier one).
pub open spec fn recorded_index(persisted: Seq<EventSchemaView>, event_type: Seq<char>, j: int) -> bool {
    &&& 0 <= j < persisted.len()
    &&& persisted[j].event_type == event_type
    &&& forall|k: int| j < k < persisted.len() ==> (#[trigger] persisted[k]).event_type != event_type
}

/// The code schema at index `i` conflicts with the recorded schemas.
pub open spec fn schema_conflicts(persisted: Seq<EventSchemaView>, code: Seq<EventSchemaView>, i: int) -> bool {
    &&& 0 <= i < code.len()
    &&& exists|j: int| #[trigger] recorded_index(persisted, code[i].event_type, j)
        && !compatible_views(persisted[j], code[i])
}

/// Finds the record that counts for `event_type`.
fn find_recorded(persisted: &Vec<EventSchemaDef>, event_type: &EventType) -> (result: Option<usize>)
    ensures
        match result {
            Some(j) => recorded_index(persisted@.map_values(|s: EventSchemaDef| s@), event_type@, j as int),
            None => forall|j: int| 0 <= j < persisted@.len() ==> (#[trigger] persisted@[j]).event_type@ != event_type@,
        },
{
    let ghost views = persisted@.map_values(|s: EventSchemaDef| s@);
    let mut i: usize = persisted.len();
    while i > 0
        invariant
            i <= persisted@.len(),
            views == persisted@.map_values(|s: EventSchemaDef| s@),
            forall|k: int| i <= k < persisted@.len() ==> (#[trigger] persisted@[k]).event_type@ != event_type@,
        decreases i,
    {
        i = i - 1;
        if persisted[i].event_type == *event_type {
            proof {
                assert forall|k: int| i < k < views.len() implies (#[trigger] views[k]).event_type != event_type@ by {
                    assert(views[k] == persisted@[k]@);
                }
            }
            return Some(i);
        }
    }
    None
}

/// Startup schema check: each code schema, in order, is compared with the
/// recorded schema of its event type; the first incompatible pair is the
/// error. A failed fetch of the recorded schemas becomes a storage failure
/// carrying the fetch error's message. Without recorded schemas every code
/// schema passes.
pub fn check_schemas(
    persisted: Result<Vec<EventSchemaDef>, EventSchemaError>,
    code_schemas: Vec<EventSchemaDef>,
) -> (result: Result<(), SchemaConflictError>)
    ensures
        match persisted {
            Err(e) => result matches Err(SchemaConflictError::StorageFailure(m))
                && m@ == "storage failure: "@ + (match e { EventSchemaError::StorageFailure(x) => x@ }),
            Ok(p) => conflict_result(p@.map_values(|s: EventSchemaDef| s@), code_schemas@.map_values(|s: EventSchemaDef| s@), result),
        },
{
    match persisted {
        Err(e) => Err(SchemaConflictError::StorageFailure(e.message())),
        Ok(p) => find_schema_conflict(&p, &code_schemas),
    }
}

/// `result` is what the schema check answers for recorded schemas `pv` and
/// code schemas `cv`: success when no code schema conflicts, and otherwise the
/// first conflicting code schema with the record it conflicts with.
pub open spec fn conflict_result(pv: Seq<EventSchemaView>, cv: Seq<EventSchemaView>, result: Result<(), SchemaConflictError>) -> bool {
    &&& result is Ok <==> forall|i: int| 0 <= i < cv.len() ==> !#[trigger] schema_conflicts(pv, cv, i)
    &&& result matches Err(SchemaConflictError::Conflict { event_type, expected, actual }) ==> exists|i: int, j: int|
        #[trigger] schema_conflicts(pv, cv, i)
        && (forall|k: int| 0 <= k < i ==> !#[trigger] schema_conflicts(pv, cv, k))
        && #[trigger] recorded_index(pv, cv[i].event_type, j)
        && event_type@ == cv[i].event_type
        && expected@ == pv[j]
        && actual@ == cv[i]
    &&& !(result matches Err(SchemaConflictError::StorageFailure(_)))
}

/// Compares the code schemas, in order, with the recorded ones.
pub fn find_schema_conflict(persisted: &Vec<EventSchemaDef>, code_schemas: &Vec<EventSchemaDef>) -> (result: Result<(), SchemaConflictError>)
    ensures
        conflict_result(persisted@.map_values(|s: EventSchemaDef| s@), code_schemas@.map_values(|s: EventSchemaDef| s@), result),
{
    let ghost pv = persisted@.map_values(|s: EventSchemaDef| s@);
    let ghost cv = code_schemas@.map_values(|s: EventSchemaDef| s@);
    let mut i: usize = 0;
    while i < code_schemas.len()
        invariant
            i <= code_schemas@.len(),
            pv == persisted@.map_values(|s: EventSchemaDef| s@),
            cv == code_schemas@.map_values(|s: EventSchemaDef| s@),
            forall|k: int| 0 <= k < i ==> !#[trigger] schema_conflicts(pv, cv, k),
        decreases code_schemas@.len() - i,
    {
        let code_schema = &code_schemas[i];
        proof {
            assert(cv[i as int] == code_schema@);
        }
        match find_recorded(persisted, &code_schema.event_type) {
            Some(j) => {
                proof {
                    assert(pv[j as int] == persisted@[j as int]@);
                }
                if !persisted[j].is_compatible_with(code_schema) {
                    proof {
                        assert(recorded_index(pv, cv[i as int].event_type, j as int));
                        assert(schema_conflicts(pv, cv, i as int));
                    }
                    return Err(SchemaConflictError::Conflict {
                        event_type: code_schema.event_type.clone(),
                        expected: persisted[j].clone(),
                        actual: code_schema.clone(),
                    });
                }
                proof {
                    assert forall|jj: int| #[trigger] recorded_index(pv, cv[i as int].event_type, jj) implies jj == j by {
                        if jj < j {
                            assert(pv[j as int].event_type == cv[i as int].event_type);
                        } else if jj > j {
                            assert(pv[jj].event_type == cv[i as int].event_type);
                        }
                    }
                }
            },
            None => {
                proof {
                    assert forall|jj: int| !#[trigger] recorded_index(pv, cv[i as int].event_type, jj) by {
                        if 0 <= jj < pv.len() {
                            assert(pv[jj] == persisted@[jj]@);
                        }
                    }
                }
            },
        }
        i = i + 1;
    }
    Ok(())
}

/// With no recorded schemas, every set of code schemas passes validation.
pub proof fn lemma_no_records_no_conflict(cv: Seq<EventSchemaView>, result: Result<(), SchemaConflictError>)
    requires
        conflict_result(Seq::<EventSchemaView>::empty(), cv, result),
    ensures
        result is Ok,
{
    assert forall|i: int| 0 <= i < cv.len() implies !#[trigger] schema_conflicts(Seq::<EventSchemaView>::empty(), cv, i) by {
        assert forall|j: int| !#[trigger] recorded_index(Seq::<EventSchemaView>::empty(), cv[i].event_type, j) by {}
    }
}

} // verus!
