use event_sourcing::{
    AppendCondition, AppendError, Criterion, EventType, EventTypeSet, GlobalSequenceId,
    InMemoryLogStore, NewEvent, Query, StoredEvent, Tag, TagFilter, TagSet,
};

fn tag(s: &str) -> Tag {
    Tag::new(s).unwrap()
}

fn tags(ts: &[&str]) -> TagSet {
    TagSet::from_vec(ts.iter().map(|s| tag(s)).collect())
}

fn test_event(event_type: &str, tag_strs: &[&str]) -> NewEvent {
    NewEvent {
        event_type: EventType::from(event_type),
        payload: serde_json::from_str(r#"{"test": true}"#).unwrap(),
        tags: tags(tag_strs),
    }
}

fn all_events(store: &InMemoryLogStore) -> Vec<StoredEvent> {
    store.query(Query::all(), GlobalSequenceId::zero())
}

fn filter_query(filter: Option<TagFilter>) -> Query {
    Query { criteria: vec![Criterion { event_types: EventTypeSet::new(), tag_filter: filter }] }
}

#[test]
fn append_and_query_all() {
    let mut store = InMemoryLogStore::new();
    store
        .append(
            vec![
                test_event("OrderPlaced", &["order:o1"]),
                test_event("OrderShipped", &["order:o2"]),
                test_event("OrderConfirmed", &["order:o1", "premium"]),
            ],
            None,
        )
        .unwrap();

    let events = all_events(&store);
    assert_eq!(events.len(), 3);
    assert_eq!(events[0].global_sequence, GlobalSequenceId::new(1));
    assert_eq!(events[1].global_sequence, GlobalSequenceId::new(2));
    assert_eq!(events[2].global_sequence, GlobalSequenceId::new(3));
}

#[test]
fn query_filters_by_tag() {
    let mut store = InMemoryLogStore::new();
    store
        .append(
            vec![
                test_event("E1", &["order:o1"]),
                test_event("E2", &["order:o2"]),
                test_event("E3", &["order:o1", "premium"]),
            ],
            None,
        )
        .unwrap();

    let events = store.query(Query::match_tags(vec![tag("order:o1")]), GlobalSequenceId::zero());
    assert_eq!(events.len(), 2);
    assert_eq!(events[0].event_type.as_str(), "E1");
    assert_eq!(events[1].event_type.as_str(), "E3");
}

#[test]
fn query_filters_by_event_type() {
    let mut store = InMemoryLogStore::new();
    store
        .append(
            vec![test_event("OrderPlaced", &[]), test_event("OrderShipped", &[]), test_event("OrderPlaced", &[])],
            None,
        )
        .unwrap();

    let events = store.query(Query::match_event_types(&["OrderPlaced"]), GlobalSequenceId::zero());
    assert_eq!(events.len(), 2);
    assert!(events.iter().all(|e| e.event_type.as_str() == "OrderPlaced"));
}

#[test]
fn query_all_returns_all_events() {
    let mut store = InMemoryLogStore::new();
    store.append(vec![test_event("A", &[]), test_event("B", &[]), test_event("C", &[])], None).unwrap();
    assert_eq!(all_events(&store).len(), 3);
}

#[test]
fn query_no_match_returns_empty() {
    let mut store = InMemoryLogStore::new();
    store.append(vec![test_event("E1", &["a"])], None).unwrap();
    let events = store.query(Query::match_tags(vec![tag("nonexistent")]), GlobalSequenceId::zero());
    assert_eq!(events.len(), 0);
}

#[test]
fn query_from_position() {
    let mut store = InMemoryLogStore::new();
    store.append(vec![test_event("E1", &[]), test_event("E2", &[]), test_event("E3", &[])], None).unwrap();

    let events = store.query(Query::all(), GlobalSequenceId::new(2));
    assert_eq!(events.len(), 2);
    assert_eq!(events[0].global_sequence, GlobalSequenceId::new(2));
    assert_eq!(events[1].global_sequence, GlobalSequenceId::new(3));
}

#[test]
fn append_none_condition() {
    let mut store = InMemoryLogStore::new();
    let result = store.append(vec![test_event("E1", &[])], None);
    assert!(result.is_ok());
    assert_eq!(result.unwrap(), GlobalSequenceId::new(1));
}

#[test]
fn lib_append_condition_no_conflict() {
    let mut store = InMemoryLogStore::new();
    store.append(vec![test_event("E1", &["order:o1"])], None).unwrap();
    let current_seq = store.current_sequence();

    let result = store.append(
        vec![test_event("E2", &["order:o1"])],
        Some(AppendCondition { query: Query::match_tags(vec![tag("order:o1")]), after: current_seq }),
    );
    assert!(result.is_ok());
}

#[test]
fn lib_append_condition_conflict() {
    let mut store = InMemoryLogStore::new();
    store.append(vec![test_event("E1", &["order:o1"])], None).unwrap();

    let result = store.append(
        vec![test_event("E2", &[])],
        Some(AppendCondition { query: Query::match_tags(vec![tag("order:o1")]), after: GlobalSequenceId::zero() }),
    );
    match result {
        Err(AppendError::ConcurrencyConflict { conflicting_position, checked_after }) => {
            assert_eq!(conflicting_position, GlobalSequenceId::new(1));
            assert_eq!(checked_after, GlobalSequenceId::zero());
        }
        other => panic!("expected ConcurrencyConflict, got {:?}", other),
    }
}

#[test]
fn append_condition_different_tags_no_conflict() {
    let mut store = InMemoryLogStore::new();
    store.append(vec![test_event("E1", &["order:o1"])], None).unwrap();

    let result = store.append(
        vec![test_event("E2", &[])],
        Some(AppendCondition { query: Query::match_tags(vec![tag("order:o2")]), after: GlobalSequenceId::zero() }),
    );
    assert!(result.is_ok());
}

#[test]
fn global_sequence_monotonic() {
    let mut store = InMemoryLogStore::new();
    store.append(vec![test_event("E1", &[]), test_event("E2", &[]), test_event("E3", &[])], None).unwrap();

    let events = all_events(&store);
    assert_eq!(events.len(), 3);
    let seqs: Vec<GlobalSequenceId> = events.iter().map(|e| e.global_sequence).collect();
    for i in 0..seqs.len() - 1 {
        assert!(seqs[i] < seqs[i + 1], "sequences not strictly increasing at {}", i);
    }
}

#[test]
fn current_sequence_empty() {
    let store = InMemoryLogStore::new();
    assert_eq!(store.current_sequence(), GlobalSequenceId::zero());
}

#[test]
fn current_sequence_after_append() {
    let mut store = InMemoryLogStore::new();
    store.append(vec![test_event("E1", &[]), test_event("E2", &[]), test_event("E3", &[])], None).unwrap();
    assert_eq!(store.current_sequence(), GlobalSequenceId::new(3));
}

#[test]
fn append_batch_atomicity() {
    let mut store = InMemoryLogStore::new();
    store.append(vec![test_event("E1", &[]), test_event("E2", &[]), test_event("E3", &[])], None).unwrap();

    let events = all_events(&store);
    assert_eq!(events.len(), 3);
    assert_eq!(events[0].global_sequence, GlobalSequenceId::new(1));
    assert_eq!(events[1].global_sequence, GlobalSequenceId::new(2));
    assert_eq!(events[2].global_sequence, GlobalSequenceId::new(3));
}

#[test]
fn lib_concurrent_condition_conflict() {
    let mut store = InMemoryLogStore::new();
    store.append(vec![test_event("Seed", &[])], None).unwrap();

    let condition1 = AppendCondition { query: Query::match_tags(vec![tag("order:o1")]), after: GlobalSequenceId::zero() };
    let condition2 = AppendCondition { query: Query::match_tags(vec![tag("order:o1")]), after: GlobalSequenceId::zero() };

    let r1 = store.append(vec![test_event("A", &["order:o1"])], Some(condition1));
    let r2 = store.append(vec![test_event("B", &["order:o1"])], Some(condition2));

    let successes = [r1.is_ok(), r2.is_ok()].iter().filter(|&&ok| ok).count();
    let conflicts = [r1.is_err(), r2.is_err()].iter().filter(|&&err| err).count();
    assert_eq!(successes, 1, "exactly one append should succeed");
    assert_eq!(conflicts, 1, "exactly one append should conflict");
}

#[test]
fn append_empty_events_is_noop() {
    let mut store = InMemoryLogStore::new();
    let result = store.append(vec![], None);
    assert!(result.is_ok());
    assert_eq!(result.unwrap(), GlobalSequenceId::zero());
    assert_eq!(all_events(&store).len(), 0);
}

#[test]
fn inmemory_evaluates_tag_filter_variants() {
    let mut store = InMemoryLogStore::new();
    for e in [
        test_event("E1", &["order:o1"]),
        test_event("E1", &["order:o2"]),
        test_event("E1", &["premium"]),
        test_event("E1", &["shipping:ship1"]),
    ] {
        store.append(vec![e], None).unwrap();
    }

    let q = filter_query(Some(TagFilter::StartsWith("order:".into())));
    assert_eq!(store.query(q, GlobalSequenceId::zero()).len(), 2, "StartsWith(order:) should match 2 events");

    let q = filter_query(Some(TagFilter::EndsWith(":o1".into())));
    assert_eq!(store.query(q, GlobalSequenceId::zero()).len(), 1, "EndsWith(:o1) should match 1 event");

    let q = filter_query(Some(TagFilter::Or(vec![
        TagFilter::Equals(tag("premium")),
        TagFilter::StartsWith("shipping:".into()),
    ])));
    assert_eq!(store.query(q, GlobalSequenceId::zero()).len(), 2, "Or(premium, shipping:*) should match 2 events");

    let q = filter_query(Some(TagFilter::And(vec![
        TagFilter::StartsWith("order:".into()),
        TagFilter::Equals(tag("order:o1")),
    ])));
    assert_eq!(store.query(q, GlobalSequenceId::zero()).len(), 1, "And(order:*, order:o1) should match 1 event");

    let q = filter_query(None);
    assert_eq!(store.query(q, GlobalSequenceId::zero()).len(), 4, "tag_filter=None should match all events");
}

#[test]
fn append_condition_with_starts_with_filter_detects_cross_instance_conflict() {
    let mut store = InMemoryLogStore::new();
    store.append(vec![test_event("E", &["order:o1"])], None).unwrap();

    let condition = AppendCondition {
        query: filter_query(Some(TagFilter::StartsWith("order:".into()))),
        after: GlobalSequenceId::zero(),
    };
    let result = store.append(vec![test_event("E", &["order:o2"])], Some(condition));
    match result {
        Err(AppendError::ConcurrencyConflict { .. }) => {}
        other => panic!("expected ConcurrencyConflict, got {:?}", other),
    }
}

#[test]
fn append_condition_with_starts_with_filter_allows_when_no_match() {
    let mut store = InMemoryLogStore::new();
    store.append(vec![test_event("E", &["premium"])], None).unwrap();

    let condition = AppendCondition {
        query: filter_query(Some(TagFilter::StartsWith("order:".into()))),
        after: GlobalSequenceId::zero(),
    };
    let result = store.append(vec![test_event("E", &["order:o1"])], Some(condition));
    assert!(result.is_ok(), "expected Ok, got {:?}", result);
}

#[test]
fn conflicting_append_stores_nothing_and_names_first_conflict() {
    let mut store = InMemoryLogStore::new();
    store
        .append(vec![test_event("A", &["x"]), test_event("B", &["y"]), test_event("C", &["x"])], None)
        .unwrap();
    let result = store.append(
        vec![test_event("D", &["x"]), test_event("E", &[])],
        Some(AppendCondition { query: Query::match_tags(vec![tag("x")]), after: GlobalSequenceId::new(1) }),
    );
    match result {
        Err(AppendError::ConcurrencyConflict { conflicting_position, checked_after }) => {
            assert_eq!(conflicting_position, GlobalSequenceId::new(3));
            assert_eq!(checked_after, GlobalSequenceId::new(1));
        }
        other => panic!("expected ConcurrencyConflict, got {:?}", other),
    }
    assert_eq!(store.current_sequence(), GlobalSequenceId::new(3));
    assert_eq!(all_events(&store).len(), 3);
}

#[test]
fn appended_events_are_read_back_in_order() {
    let mut store = InMemoryLogStore::new();
    store.append(vec![test_event("Old", &["t"])], None).unwrap();
    let last = store.append(vec![test_event("New1", &["t", "u"]), test_event("New2", &["t"])], None).unwrap();
    assert_eq!(last, GlobalSequenceId::new(3));
    let events = store.query(Query::match_tags(vec![tag("t")]), GlobalSequenceId::new(2));
    assert_eq!(events.len(), 2);
    assert_eq!(events[0].event_type, "New1");
    assert_eq!(events[0].tags, tags(&["u", "t"]));
    assert_eq!(events[1].event_type, "New2");
    assert_eq!(events[1].payload, serde_json::from_str::<serde_json::Value>(r#"{"test": true}"#).unwrap());
    assert!(store.positions_are_sequential());
}

#[test]
fn empty_append_still_checks_the_condition() {
    let mut store = InMemoryLogStore::new();
    store.append(vec![test_event("A", &["x"])], None).unwrap();
    let result = store.append(
        vec![],
        Some(AppendCondition { query: Query::all(), after: GlobalSequenceId::zero() }),
    );
    assert_eq!(
        result,
        Err(AppendError::ConcurrencyConflict {
            conflicting_position: GlobalSequenceId::new(1),
            checked_after: GlobalSequenceId::zero(),
        })
    );
    let ok = store.append(
        vec![],
        Some(AppendCondition { query: Query::all(), after: GlobalSequenceId::new(1) }),
    );
    assert_eq!(ok, Ok(GlobalSequenceId::new(1)));
    assert_eq!(all_events(&store).len(), 1);
}
