use std::collections::HashSet;
use std::time::SystemTime;

use event_sourcing::{
    AppendCondition, AppendError, EventType, GlobalSequenceId, InvalidTag, NewEvent, Query,
    StoreError, StoredEvent, Tag, TagSet,
};

fn json(text: &str) -> serde_json::Value {
    serde_json::from_str(text).unwrap()
}

#[test]
fn tag_new_valid() {
    let tag = Tag::new("course:c1").unwrap();
    assert_eq!(tag.as_str(), "course:c1");
}

#[test]
fn tag_new_empty_returns_error() {
    let result = Tag::new("");
    assert_eq!(result, Err(InvalidTag));
}

#[test]
fn tag_equality() {
    let a = Tag::new("premium").unwrap();
    let b = Tag::new("premium").unwrap();
    assert_eq!(a, b);
}

#[test]
fn tag_hash_set() {
    let mut set = HashSet::new();
    let t = Tag::new("order:o1").unwrap();
    set.insert(t.clone());
    assert!(set.contains(&t));
    assert_eq!(set.len(), 1);
    set.insert(Tag::new("order:o1").unwrap());
    assert_eq!(set.len(), 1);
}

#[test]
fn global_sequence_zero_is_zero() {
    assert_eq!(GlobalSequenceId::zero().get(), 0);
}

#[test]
fn global_sequence_ord() {
    let a = GlobalSequenceId::new(1);
    let b = GlobalSequenceId::new(2);
    assert!(a < b);
}

#[test]
fn new_event_can_be_constructed() {
    let event = NewEvent {
        event_type: "OrderPlaced".to_string(),
        payload: json(r#"{"order_id": "123"}"#),
        tags: TagSet::from_vec(vec![Tag::new("order:o1").unwrap()]),
    };
    assert_eq!(event.event_type, "OrderPlaced");
    assert_eq!(event.tags.len(), 1);
}

#[test]
fn stored_event_can_be_constructed() {
    let event = StoredEvent {
        global_sequence: GlobalSequenceId::new(1),
        event_type: "OrderPlaced".to_string(),
        payload: json(r#"{"order_id": "123"}"#),
        tags: TagSet::from_vec(vec![Tag::new("order:o1").unwrap()]),
        timestamp: SystemTime::now(),
    };
    assert_eq!(event.event_type, "OrderPlaced");
    assert_eq!(event.global_sequence.get(), 1);
    assert_eq!(event.tags.len(), 1);
}

#[test]
fn core_types_importable() {
    let _tag = Tag::new("course:c1").unwrap();
    let _gseq = GlobalSequenceId::new(1);
    let _new_event = NewEvent {
        event_type: EventType::from("test"),
        payload: json("{}"),
        tags: TagSet::new(),
    };
    let _condition = AppendCondition { query: Query::all(), after: GlobalSequenceId::zero() };
    let _q = Query::match_tags(vec![Tag::new("a").unwrap()]);
}

#[test]
fn global_sequence_id_ordering() {
    let low = GlobalSequenceId::new(1);
    let high = GlobalSequenceId::new(2);
    assert!(low < high);
    assert!(high > low);
    assert_eq!(low, GlobalSequenceId::new(1));
}

#[test]
fn sequence_id_zero_semantics() {
    let zero = GlobalSequenceId::new(0);
    let one = GlobalSequenceId::new(1);
    assert!(zero < one);
    assert_eq!(zero.get(), 0);
}

#[test]
fn append_condition_can_be_constructed() {
    let _cond = AppendCondition { query: Query::all(), after: GlobalSequenceId::zero() };
}

#[test]
fn append_error_concurrency_conflict_can_be_matched() {
    let err = AppendError::ConcurrencyConflict {
        conflicting_position: GlobalSequenceId::new(5),
        checked_after: GlobalSequenceId::zero(),
    };
    match err {
        AppendError::ConcurrencyConflict { conflicting_position, checked_after } => {
            assert_eq!(conflicting_position, GlobalSequenceId::new(5));
            assert_eq!(checked_after, GlobalSequenceId::zero());
        }
        other => panic!("unexpected variant: {:?}", other),
    }
}

#[test]
fn store_error_storage_can_be_matched() {
    let err = StoreError::Storage("test".to_string());
    match err {
        StoreError::Storage(_) => {}
    }
}

#[test]
fn append_error_concurrency_conflict_matching() {
    let err = AppendError::ConcurrencyConflict {
        conflicting_position: GlobalSequenceId::new(1),
        checked_after: GlobalSequenceId::zero(),
    };
    let matched = match err {
        AppendError::ConcurrencyConflict { .. } => "conflict",
        AppendError::StorageFailure(_) => "storage",
    };
    assert_eq!(matched, "conflict");
}

#[test]
fn append_error_storage_failure_matching() {
    let err = AppendError::StorageFailure("disk full".to_string());
    let matched = match err {
        AppendError::ConcurrencyConflict { .. } => "conflict",
        AppendError::StorageFailure(_) => "storage",
    };
    assert_eq!(matched, "storage");
}

#[test]
fn append_error_display() {
    let err = AppendError::ConcurrencyConflict {
        conflicting_position: GlobalSequenceId::new(1),
        checked_after: GlobalSequenceId::zero(),
    };
    assert!(err.message().contains("concurrency conflict"));
}

#[test]
fn append_error_messages_name_positions_and_source() {
    let err = AppendError::ConcurrencyConflict {
        conflicting_position: GlobalSequenceId::new(1207),
        checked_after: GlobalSequenceId::new(30),
    };
    assert_eq!(
        err.message(),
        "concurrency conflict: event at position 1207 matched query after position 30"
    );
    assert_eq!(AppendError::StorageFailure("disk full".to_string()).message(), "storage failure: disk full");
    assert_eq!(StoreError::Storage("gone".to_string()).message(), "storage error: gone");
}

#[test]
fn sequence_id_text_is_decimal() {
    assert_eq!(GlobalSequenceId::zero().to_text(), "0");
    assert_eq!(GlobalSequenceId::new(7).to_text(), "7");
    assert_eq!(GlobalSequenceId::new(10).to_text(), "10");
    assert_eq!(GlobalSequenceId::new(u64::MAX).to_text(), "18446744073709551615");
}

#[test]
fn sequence_id_next_and_is_before() {
    let a = GlobalSequenceId::new(41);
    assert_eq!(a.next(), GlobalSequenceId::new(42));
    assert!(a.is_before(a.next()));
    assert!(!a.next().is_before(a));
    assert!(!a.is_before(a));
}

#[test]
fn invalid_tag_message() {
    assert_eq!(InvalidTag.message(), "tag must not be empty");
}

#[test]
fn tag_set_holds_each_tag_once() {
    let mut set = TagSet::from_vec(vec![
        Tag::new("a").unwrap(),
        Tag::new("b").unwrap(),
        Tag::new("a").unwrap(),
    ]);
    assert_eq!(set.len(), 2);
    assert_eq!(set.get(0).as_str(), "a");
    assert_eq!(set.get(1).as_str(), "b");
    assert!(!set.insert(Tag::new("b").unwrap()));
    assert!(set.insert(Tag::new("c").unwrap()));
    assert_eq!(set.len(), 3);
    assert!(set.contains(&Tag::new("c").unwrap()));
    assert!(!set.contains(&Tag::new("d").unwrap()));
    assert!(TagSet::new().is_empty());
}

#[test]
fn tag_sets_compare_by_members() {
    let a = TagSet::from_vec(vec![Tag::new("x").unwrap(), Tag::new("y").unwrap()]);
    let b = TagSet::from_vec(vec![Tag::new("y").unwrap(), Tag::new("x").unwrap()]);
    let c = TagSet::from_vec(vec![Tag::new("x").unwrap()]);
    assert_eq!(a, b);
    assert_ne!(a, c);
}
