use std::time::SystemTime;

use event_sourcing::event_log::{
    check_schemas, find_schema_conflict, first_step, map_append_error, single_first_step, single_second_step,
};
use event_sourcing::{
    AppendError, EventLogError, EventSchemaDef, EventSchemaError, EventType, FieldDef,
    FieldType, GlobalSequenceId, SchemaConflictError, StoreError, StoredEvent,
    StreamError, TagSet,
};

fn make_stored_event(seq: u64, event_type: &str) -> StoredEvent {
    StoredEvent {
        global_sequence: GlobalSequenceId::new(seq),
        event_type: EventType::from(event_type),
        payload: serde_json::from_str("{}").unwrap(),
        tags: TagSet::new(),
        timestamp: SystemTime::now(),
    }
}

fn make_schema(event_type: &str, fields: Vec<FieldDef>) -> EventSchemaDef {
    EventSchemaDef { event_type: EventType::from(event_type), fields }
}

fn field(name: &str) -> FieldDef {
    FieldDef { name: name.to_owned(), field_type: FieldType::String, optional: false }
}

fn single(items: Vec<Result<StoredEvent, StoreError>>) -> Result<StoredEvent, StreamError> {
    let mut stream = items.into_iter();
    match single_first_step(stream.next()) {
        Ok(held) => single_second_step(held, stream.next()),
        Err(e) => Err(e),
    }
}

fn first(items: Vec<Result<StoredEvent, StoreError>>) -> Result<Option<StoredEvent>, StoreError> {
    first_step(items.into_iter().next())
}

#[test]
fn event_log_error_concurrency_conflict_is_matchable() {
    let err = EventLogError::ConcurrencyConflict {
        conflicting_position: GlobalSequenceId::new(5),
        checked_after: GlobalSequenceId::zero(),
    };
    match err {
        EventLogError::ConcurrencyConflict { conflicting_position, checked_after } => {
            assert_eq!(conflicting_position, GlobalSequenceId::new(5));
            assert_eq!(checked_after, GlobalSequenceId::zero());
        }
        other => panic!("unexpected variant: {:?}", other),
    }
}

#[test]
fn event_log_error_storage_failure_wraps_source() {
    let source = "disk full".to_string();
    let err = EventLogError::StorageFailure(source);
    match err {
        EventLogError::StorageFailure(_) => {}
        other => panic!("unexpected variant: {:?}", other),
    }
}

#[test]
fn single_one_event() {
    let event = make_stored_event(1, "OrderPlaced");
    let result = single(vec![Ok(event.clone())]);
    assert!(result.is_ok());
    assert_eq!(result.unwrap().event_type.as_str(), "OrderPlaced");
}

#[test]
fn single_empty() {
    let result = single(vec![]);
    assert!(matches!(result, Err(StreamError::Empty)));
}

#[test]
fn single_multiple() {
    let e1 = make_stored_event(1, "E1");
    let e2 = make_stored_event(2, "E2");
    let result = single(vec![Ok(e1), Ok(e2)]);
    assert!(matches!(result, Err(StreamError::Multiple)));
}

#[test]
fn single_reports_store_errors() {
    let result = single(vec![Err(StoreError::Storage("boom".to_string()))]);
    assert_eq!(result.unwrap_err(), StreamError::Store(StoreError::Storage("boom".to_string())));
    let result = single(vec![Ok(make_stored_event(1, "E")), Err(StoreError::Storage("late".to_string()))]);
    assert_eq!(result.unwrap_err(), StreamError::Store(StoreError::Storage("late".to_string())));
}

#[test]
fn first_non_empty() {
    let e1 = make_stored_event(1, "E1");
    let e2 = make_stored_event(2, "E2");
    let result = first(vec![Ok(e1), Ok(e2)]);
    assert!(result.is_ok());
    let opt = result.unwrap();
    assert!(opt.is_some());
    assert_eq!(opt.unwrap().event_type.as_str(), "E1");
}

#[test]
fn first_empty() {
    let result = first(vec![]);
    assert!(result.is_ok());
    assert!(result.unwrap().is_none());
}

#[test]
fn first_reports_store_error() {
    let result = first(vec![Err(StoreError::Storage("x".to_string()))]);
    assert_eq!(result.unwrap_err(), StoreError::Storage("x".to_string()));
}

#[test]
fn validate_schemas_ok_when_no_persisted() {
    let schema_a = make_schema("OrderPlaced", vec![field("id")]);
    let result = check_schemas(Ok(vec![]), vec![schema_a]);
    assert!(result.is_ok());
}

#[test]
fn validate_schemas_reports_first_incompatible_schema() {
    let persisted = vec![
        make_schema("A", vec![field("x")]),
        make_schema("B", vec![field("old")]),
        make_schema("B", vec![field("y")]),
    ];
    let code = vec![
        make_schema("A", vec![field("x")]),
        make_schema("C", vec![field("anything")]),
        make_schema("B", vec![field("z")]),
        make_schema("A", vec![field("w")]),
    ];
    match check_schemas(Ok(persisted), code) {
        Err(SchemaConflictError::Conflict { event_type, expected, actual }) => {
            assert_eq!(event_type, "B");
            assert_eq!(expected, make_schema("B", vec![field("y")]));
            assert_eq!(actual, make_schema("B", vec![field("z")]));
        }
        other => panic!("expected a conflict, got {:?}", other),
    }
}

#[test]
fn validate_schemas_passes_compatible_reordered_fields() {
    let persisted = vec![make_schema("A", vec![field("x"), field("y")])];
    let code = vec![make_schema("A", vec![field("y"), field("x")])];
    assert_eq!(find_schema_conflict(&persisted, &code), Ok(()));
}

#[test]
fn validate_schemas_turns_fetch_failure_into_storage_failure() {
    let result = check_schemas(Err(EventSchemaError::StorageFailure("offline".to_string())), vec![]);
    assert_eq!(result, Err(SchemaConflictError::StorageFailure("storage failure: offline".to_string())));
}

#[test]
fn append_errors_surface_variant_by_variant() {
    let conflict = AppendError::ConcurrencyConflict {
        conflicting_position: GlobalSequenceId::new(9),
        checked_after: GlobalSequenceId::new(4),
    };
    assert_eq!(
        map_append_error(conflict),
        EventLogError::ConcurrencyConflict {
            conflicting_position: GlobalSequenceId::new(9),
            checked_after: GlobalSequenceId::new(4),
        }
    );
    assert_eq!(
        map_append_error(AppendError::StorageFailure("disk".to_string())),
        EventLogError::StorageFailure("disk".to_string())
    );
}

#[test]
fn event_log_and_stream_messages() {
    let e = EventLogError::ConcurrencyConflict {
        conflicting_position: GlobalSequenceId::new(12),
        checked_after: GlobalSequenceId::new(0),
    };
    assert_eq!(e.message(), "concurrency conflict: event at position 12 matched query after position 0");
    assert_eq!(EventLogError::StorageFailure("full".to_string()).message(), "storage failure: full");
    let s = EventLogError::SchemaConflict {
        event_type: "A".to_string(),
        expected: make_schema("A", vec![]),
        actual: make_schema("A", vec![field("x")]),
    };
    assert_eq!(s.message(), "schema conflict for event type 'A'");
    assert_eq!(StreamError::Empty.message(), "stream was empty, expected exactly one event");
    assert_eq!(StreamError::Multiple.message(), "stream had multiple events, expected exactly one");
    assert_eq!(
        StreamError::from(StoreError::Storage("bad".to_string())).message(),
        "stream error: storage error: bad"
    );
}

#[test]
fn schema_store_error_message() {
    assert_eq!(EventSchemaError::StorageFailure("down".to_string()).message(), "storage failure: down");
}
