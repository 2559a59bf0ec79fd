//! Events as the log stores them.
use vstd::prelude::*;

use crate::types::{EventType, GlobalSequenceId, TagSet};

verus! {

/// A stored event with the metadata that the log assigned when it was
/// appended. Identified by `global_sequence`; its tags classify it for reads.
#[derive(Debug)]
pub struct StoredEvent {
    pub global_sequence: GlobalSequenceId,
    pub event_type: EventType,
    pub payload: serde_json::Value,
    pub tags: TagSet,
    pub timestamp: std::time::SystemTime,
}

/// What a stored event holds, as plain values.
pub ghost struct StoredEventView {
    pub global_sequence: u64,
    pub event_type: Seq<char>,
    pub payload: serde_json::Value,
    /// The tags in their insertion order.
    pub tags: Seq<Seq<char>>,
    pub timestamp: std::time::SystemTime,
}

impl StoredEventView {
    /// The event's tags as a set.
    pub open spec fn tag_set(self) -> Set<Seq<char>> {
        self.tags.to_set()
    }
}

impl View for StoredEvent {
    type V = StoredEventView;

    open spec fn view(&self) -> StoredEventView {
        StoredEventView {
            global_sequence: self.global_sequence@,
            event_type: self.event_type@,
            payload: self.payload,
            tags: self.tags.elements(),
            timestamp: self.timestamp,
        }
    }
}

impl StoredEvent {
    /// The view's tag set is the event's tag set.
    pub proof fn lemma_tag_set(&self)
        ensures
            self@.tag_set() == self.tags@,
    {
        self.tags.lemma_view_is_elements();
    }
}

impl Clone for StoredEvent {
    fn clone(&self) -> (result: StoredEvent)
        ensures
            result@ == self@,
    {
        StoredEvent {
            global_sequence: self.global_sequence,
            event_type: self.event_type.clone(),
            payload: self.payload.clone(),
            tags: self.tags.clone(),
            timestamp: self.timestamp,
        }
    }
}

} // verus!
