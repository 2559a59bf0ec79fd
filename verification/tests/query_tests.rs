use std::time::SystemTime;

use event_sourcing::query::{event_matches_criterion, event_matches_query};
use event_sourcing::{
    Criterion, EventType, EventTypeSet, GlobalSequenceId, Query, StoredEvent, Tag, TagFilter, TagSet,
};

fn tag_set(tags: &[&str]) -> TagSet {
    TagSet::from_vec(tags.iter().map(|s| Tag::new(s).unwrap()).collect())
}

fn make_event(event_type: &str, tags: &[&str]) -> StoredEvent {
    StoredEvent {
        global_sequence: GlobalSequenceId::new(1),
        event_type: EventType::from(event_type),
        payload: serde_json::Value::Null,
        tags: tag_set(tags),
        timestamp: SystemTime::now(),
    }
}

fn event_types(names: &[&str]) -> EventTypeSet {
    EventTypeSet::from_vec(names.iter().map(|s| s.to_string()).collect())
}

#[test]
fn query_all_matches_any_event() {
    let event = make_event("OrderPlaced", &["order:o1"]);
    assert!(event_matches_query(&event, &Query::all()));
}

#[test]
fn query_empty_criteria_matches_nothing() {
    let event = make_event("OrderPlaced", &["order:o1"]);
    let q = Query { criteria: vec![] };
    assert!(!event_matches_query(&event, &q));
}

#[test]
fn query_match_tags_filters_correctly() {
    let event_ab = make_event("E", &["a", "b"]);
    let event_b = make_event("E", &["b"]);

    let q_a = Query::match_tags(vec![Tag::new("a").unwrap()]);
    assert!(event_matches_query(&event_ab, &q_a));
    assert!(!event_matches_query(&event_b, &q_a));

    let q_c = Query::match_tags(vec![Tag::new("c").unwrap()]);
    assert!(!event_matches_query(&event_ab, &q_c));
}

#[test]
fn query_match_event_types_filters_correctly() {
    let event_x = make_event("X", &[]);
    let event_y = make_event("Y", &[]);

    let q = Query::match_event_types(&["X"]);
    assert!(event_matches_query(&event_x, &q));
    assert!(!event_matches_query(&event_y, &q));
}

#[test]
fn query_criterion_and_semantics() {
    let criterion = Criterion {
        event_types: event_types(&["X"]),
        tag_filter: Some(TagFilter::Equals(Tag::new("a").unwrap())),
    };
    let q = Query { criteria: vec![criterion] };

    let event_match = make_event("X", &["a"]);
    let event_wrong_type = make_event("Y", &["a"]);
    let event_wrong_tag = make_event("X", &["b"]);

    assert!(event_matches_query(&event_match, &q));
    assert!(!event_matches_query(&event_wrong_type, &q));
    assert!(!event_matches_query(&event_wrong_tag, &q));
}

#[test]
fn query_or_semantics() {
    let q = Query::match_tags(vec![Tag::new("a").unwrap()])
        .or(Criterion { event_types: event_types(&["X"]), tag_filter: None });

    let event_tag_a = make_event("Y", &["a"]);
    let event_type_x = make_event("X", &["b"]);
    let event_neither = make_event("Z", &["c"]);

    assert!(event_matches_query(&event_tag_a, &q));
    assert!(event_matches_query(&event_type_x, &q));
    assert!(!event_matches_query(&event_neither, &q));
}

#[test]
fn tag_filter_equals_matches_and_misses() {
    let a = Tag::new("a").unwrap();
    let tags_a = tag_set(&["a"]);
    let tags_b = tag_set(&["b"]);
    assert!(TagFilter::Equals(a.clone()).matches(&tags_a));
    assert!(!TagFilter::Equals(a).matches(&tags_b));
    let empty = TagSet::new();
    assert!(!TagFilter::Equals(Tag::new("a").unwrap()).matches(&empty));
}

#[test]
fn tag_filter_starts_with_matches_and_misses() {
    let tags = tag_set(&["order:o1"]);
    assert!(TagFilter::StartsWith("order:".into()).matches(&tags));
    let tags2 = tag_set(&["ordering:foo"]);
    assert!(!TagFilter::StartsWith("order:".into()).matches(&tags2));
}

#[test]
fn tag_filter_ends_with_matches_and_misses() {
    let tags = tag_set(&["order:o1"]);
    assert!(TagFilter::EndsWith(":o1".into()).matches(&tags));
    assert!(!TagFilter::EndsWith(":o2".into()).matches(&tags));
}

#[test]
fn tag_filter_and_requires_all_including_empty_vacuous_true() {
    let a = Tag::new("a").unwrap();
    let b = Tag::new("b").unwrap();
    let tags_ab = tag_set(&["a", "b"]);
    let tags_a = tag_set(&["a"]);
    let f = TagFilter::And(vec![TagFilter::Equals(a.clone()), TagFilter::Equals(b.clone())]);
    assert!(f.matches(&tags_ab));
    assert!(!f.matches(&tags_a));
    assert!(TagFilter::And(vec![]).matches(&tags_a));
    assert!(TagFilter::And(vec![]).matches(&TagSet::new()));
}

#[test]
fn tag_filter_or_requires_any_including_empty_vacuous_false() {
    let a = Tag::new("a").unwrap();
    let b = Tag::new("b").unwrap();
    let tags_a = tag_set(&["a"]);
    let f = TagFilter::Or(vec![TagFilter::Equals(a.clone()), TagFilter::Equals(b.clone())]);
    assert!(f.matches(&tags_a));
    assert!(!TagFilter::Or(vec![]).matches(&tags_a));
}

#[test]
fn tag_filter_nested_and_or() {
    let tags = tag_set(&["order:o1"]);
    let f = TagFilter::And(vec![
        TagFilter::StartsWith("order:".into()),
        TagFilter::Equals(Tag::new("order:o1").unwrap()),
    ]);
    assert!(f.matches(&tags));
    let tags2 = tag_set(&["order:o2"]);
    assert!(!f.matches(&tags2));
}

#[test]
fn query_match_tags_produces_and_of_equals() {
    let q = Query::match_tags(vec![Tag::new("a").unwrap(), Tag::new("b").unwrap()]);
    assert_eq!(q.criteria.len(), 1);
    match &q.criteria[0].tag_filter {
        Some(TagFilter::And(filters)) => {
            assert_eq!(filters.len(), 2);
            for f in filters {
                match f {
                    TagFilter::Equals(_) => {}
                    other => panic!("expected Equals, got {:?}", other),
                }
            }
        }
        other => panic!("expected Some(And(..)), got {:?}", other),
    }
}

#[test]
fn match_tags_keeps_tag_order_and_without_tags_matches_all() {
    let q = Query::match_tags(vec![Tag::new("b").unwrap(), Tag::new("a").unwrap()]);
    match &q.criteria[0].tag_filter {
        Some(TagFilter::And(filters)) => {
            assert_eq!(filters[0], TagFilter::Equals(Tag::new("b").unwrap()));
            assert_eq!(filters[1], TagFilter::Equals(Tag::new("a").unwrap()));
        }
        other => panic!("expected Some(And(..)), got {:?}", other),
    }
    let all = Query::match_tags(vec![]);
    assert_eq!(all, Query::all());
    assert!(event_matches_query(&make_event("Any", &[]), &all));
}

#[test]
fn match_event_types_without_types_matches_every_type() {
    let q = Query::match_event_types(&[]);
    assert!(event_matches_query(&make_event("Anything", &["t"]), &q));
    let q2 = Query::match_event_types(&["A", "B", "A"]);
    assert_eq!(q2.criteria[0].event_types.len(), 2);
    assert!(event_matches_query(&make_event("B", &[]), &q2));
    assert!(!event_matches_query(&make_event("C", &[]), &q2));
}

#[test]
fn criterion_without_types_or_filter_admits_everything() {
    let c = Criterion { event_types: EventTypeSet::new(), tag_filter: None };
    assert!(event_matches_criterion(&make_event("E", &[]), &c));
    let c2 = Criterion { event_types: event_types(&["E"]), tag_filter: Some(TagFilter::Or(vec![])) };
    assert!(!event_matches_criterion(&make_event("E", &["x"]), &c2));
}

#[test]
fn duplicated_filter_matches_alike() {
    let f = TagFilter::Or(vec![
        TagFilter::EndsWith(":vip".into()),
        TagFilter::And(vec![TagFilter::StartsWith("order:".into())]),
    ]);
    let copy = f.duplicate();
    assert_eq!(copy, f);
    let tags = tag_set(&["order:9"]);
    assert_eq!(copy.matches(&tags), f.matches(&tags));
    assert!(copy.matches(&tags));
}
