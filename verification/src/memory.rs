//! The state of the in-memory event log and its operations: conditional
//! append, query, and the current position.
use vstd::prelude::*;

use crate::clock::system_time_now;
use crate::error::{AppendCondition, AppendError};
use crate::event::{StoredEvent, StoredEventView};
use crate::query::{event_matches_query, Query};
use crate::types::{GlobalSequenceId, NewEvent};

verus! {

/// Whether a stored event matches a query.
pub open spec fn view_matches(e: StoredEventView, query: Query) -> bool {
    query.spec_matches(e.event_type, e.tag_set())
}

/// The log assigns positions 1, 2, 3, ... in order.
pub open spec fn sequential(log: Seq<StoredEventView>) -> bool {
    forall|i: int| 0 <= i < log.len() ==> (#[trigger] log[i]).global_sequence == i + 1
}

/// The event at index `i` makes an append under `condition` fail: it comes
/// after the checked position and matches the condition's query.
pub open spec fn conflicts_at(log: Seq<StoredEventView>, condition: AppendCondition, i: int) -> bool {
    &&& 0 <= i < log.len()
    &&& log[i].global_sequence > condition.after@
    &&& view_matches(log[i], condition.query)
}

/// Some event of the log conflicts with `condition`.
pub open spec fn has_conflict(log: Seq<StoredEventView>, condition: AppendCondition) -> bool {
    exists|i: int| #[trigger] conflicts_at(log, condition, i)
}

/// `i` is the first conflicting index.
pub open spec fn first_conflict_at(log: Seq<StoredEventView>, condition: AppendCondition, i: int) -> bool {
    &&& conflicts_at(log, condition, i)
    &&& forall|j: int| 0 <= j < i ==> !(#[trigger] conflicts_at(log, condition, j))
}

/// `after` is `before` followed by `events`, stored at the next positions.
/// Timestamps are whatever the clock gave.
pub open spec fn appended(before: Seq<StoredEventView>, events: Seq<NewEvent>, after: Seq<StoredEventView>) -> bool {
    &&& after.len() == before.len() + events.len()
    &&& after.subrange(0, before.len() as int) == before
    &&& forall|k: int| 0 <= k < events.len() ==> {
        let e = #[trigger] after[before.len() + k];
        &&& e.global_sequence == before.len() + k + 1
        &&& e.event_type == events[k].event_type@
        &&& e.payload == events[k].payload
        &&& e.tags == events[k].tags.elements()
    }
}

/// The events of `log` that a query from position `from` returns, in order.
pub open spec fn query_result(log: Seq<StoredEventView>, query: Query, from: u64) -> Seq<StoredEventView> {
    log.filter(|e: StoredEventView| e.global_sequence >= from && view_matches(e, query))
}

/// The in-memory event log. Positions are allocated one after another
/// without gaps; a conditional append checks the whole log before storing
/// anything.
#[derive(Debug)]
pub struct InMemoryLogStore {
    events: Vec<StoredEvent>,
    /// The next position to assign (starts at 1).
    next_global_seq: u64,
}

impl InMemoryLogStore {
    #[verifier::type_invariant]
    spec fn well_formed(self) -> bool {
        &&& self.next_global_seq == self.events@.len() + 1
        &&& forall|i: int| 0 <= i < self.events@.len() ==> (#[trigger] self.events@[i]).global_sequence@ == i + 1
    }

    /// The stored events, in order.
    pub closed spec fn log(&self) -> Seq<StoredEventView> {
        self.events@.map_values(|e: StoredEvent| e@)
    }

    proof fn lemma_log_sequential(&self)
        requires
            self.well_formed(),
        ensures
            sequential(self.log()),
            self.log().len() == self.events@.len(),
            self.next_global_seq == self.log().len() + 1,
    {
        assert forall|i: int| 0 <= i < self.log().len() implies (#[trigger] self.log()[i]).global_sequence == i + 1 by {
            assert(self.log()[i] == self.events@[i]@);
        }
    }

    /// An empty log.
    pub fn new() -> (result: InMemoryLogStore)
        ensures
            result.log() == Seq::<StoredEventView>::empty(),
    {
        let result = InMemoryLogStore { events: Vec::new(), next_global_seq: 1 };
        assert(result.log() =~= Seq::<StoredEventView>::empty());
        result
    }

    /// The log's positions are 1, 2, 3, ... in order.
    pub fn positions_are_sequential(&self) -> (result: bool)
        ensures
            result,
            sequential(self.log()),
    {
        proof {
            use_type_invariant(self);
            self.lemma_log_sequential();
        }
        true
    }

    /// The highest assigned position; zero when the log is empty.
    pub fn current_sequence(&self) -> (result: GlobalSequenceId)
        ensures
            result@ == self.log().len(),
    {
        proof {
            use_type_invariant(self);
            self.lemma_log_sequential();
        }
        if self.next_global_seq == 1 {
            GlobalSequenceId::zero()
        } else {
            GlobalSequenceId::new(self.next_global_seq - 1)
        }
    }

    /// Finds the first stored event that conflicts with `condition`.
    fn find_conflict(&self, condition: &AppendCondition) -> (result: Option<usize>)
        ensures
            match result {
                Some(i) => first_conflict_at(self.log(), *condition, i as int),
                None => !has_conflict(self.log(), *condition),
            },
    {
        proof {
            use_type_invariant(self);
            self.lemma_log_sequential();
        }
        let mut i: usize = 0;
        while i < self.events.len()
            invariant
                i <= self.events@.len(),
                self.log().len() == self.events@.len(),
                forall|j: int| 0 <= j < i ==> !(#[trigger] conflicts_at(self.log(), *condition, j)),
            decreases self.events@.len() - i,
        {
            let e = &self.events[i];
            proof {
                assert(self.log()[i as int] == e@);
                e.lemma_tag_set();
            }
            if condition.after.is_before(e.global_sequence) && event_matches_query(e, &condition.query) {
                return Some(i);
            }
            i = i + 1;
        }
        None
    }

    /// Appends `events` unless `condition` names a conflicting event.
    ///
    /// If an event that matches the condition's query was stored after the
    /// condition's position, nothing is stored and the first such event's
    /// position is reported. Otherwise, with no events nothing is stored and
    /// the current position is returned; with events, they are stored at the
    /// next positions, in order, and the last of them is returned.
    pub fn append(&mut self, events: Vec<NewEvent>, condition: Option<AppendCondition>) -> (result: Result<GlobalSequenceId, AppendError>)
        requires
            old(self).log().len() + events@.len() < u64::MAX,
        ensures
            sequential(final(self).log()),
            events@.len() == 0 && !(condition matches Some(c) && has_conflict(old(self).log(), c)) ==> (result matches Ok(s)
                && s@ == old(self).log().len()) && final(self).log() == old(self).log(),
            (condition matches Some(c) && has_conflict(old(self).log(), c)) ==> {
                &&& final(self).log() == old(self).log()
                &&& result matches Err(AppendError::ConcurrencyConflict { conflicting_position, checked_after })
                &&& checked_after == condition->0.after
                &&& exists|i: int| first_conflict_at(old(self).log(), condition->0, i)
                    && conflicting_position@ == #[trigger] old(self).log()[i].global_sequence
            },
            events@.len() > 0 && !(condition matches Some(c) && has_conflict(old(self).log(), c)) ==> {
                &&& appended(old(self).log(), events@, final(self).log())
                &&& result matches Ok(s) && s@ == final(self).log().len()
            },
    {
        proof {
            use_type_invariant(&*self);
            self.lemma_log_sequential();
        }
        if let Some(c) = &condition {
            if let Some(i) = self.find_conflict(c) {
                return Err(AppendError::ConcurrencyConflict {
                    conflicting_position: self.events[i].global_sequence,
                    checked_after: c.after,
                });
            }
        }
        if events.len() == 0 {
            return Ok(self.current_sequence());
        }
        let ghost before = self.log();
        let ghost input = events@;
        let mut previous = InMemoryLogStore::new();
        std::mem::swap(&mut previous, self);
        let InMemoryLogStore { events: mut stored, next_global_seq: mut next } = previous;
        let mut rest = events;
        let n = rest.len();
        let mut k: usize = 0;
        while k < n
            invariant
                n == input.len(),
                k <= n,
                rest@ == input.subrange(k as int, n as int),
                before.len() + n < u64::MAX,
                stored@.len() == before.len() + k,
                next == stored@.len() + 1,
                forall|i: int| 0 <= i < stored@.len() ==> (#[trigger] stored@[i]).global_sequence@ == i + 1,
                forall|i: int| 0 <= i < before.len() ==> (#[trigger] stored@[i])@ == before[i],
                forall|j: int| 0 <= j < k ==> {
                    let e = #[trigger] stored@[before.len() + j];
                    &&& e.event_type@ == input[j].event_type@
                    &&& e.payload == input[j].payload
                    &&& e.tags.elements() == input[j].tags.elements()
                },
            decreases n - k,
        {
            let new_event = rest.remove(0);
            proof {
                assert(new_event == input[k as int]);
                assert(rest@ =~= input.subrange(k + 1, n as int));
            }
            let stored_event = StoredEvent {
                global_sequence: GlobalSequenceId::new(next),
                event_type: new_event.event_type,
                payload: new_event.payload,
                tags: new_event.tags,
                timestamp: system_time_now(),
            };
            stored.push(stored_event);
            next = next + 1;
            k = k + 1;
        }
        let last = GlobalSequenceId::new(next - 1);
        *self = InMemoryLogStore { events: stored, next_global_seq: next };
        proof {
            self.lemma_log_sequential();
            let after = self.log();
            assert(after.subrange(0, before.len() as int) =~= before) by {
                assert forall|i: int| 0 <= i < before.len() implies after[i] == before[i] by {
                    assert(after[i] == self.events@[i]@);
                }
            }
            assert forall|j: int| 0 <= j < input.len() implies {
                let e = #[trigger] after[before.len() + j];
                &&& e.global_sequence == before.len() + j + 1
                &&& e.event_type == input[j].event_type@
                &&& e.payload == input[j].payload
                &&& e.tags == input[j].tags.elements()
            } by {
                assert(after[before.len() + j] == self.events@[before.len() + j]@);
            }
        }
        Ok(last)
    }

    /// The stored events that match `query`, from position `from` on
    /// (inclusive), in position order.
    pub fn query(&self, query: Query, from: GlobalSequenceId) -> (result: Vec<StoredEvent>)
        ensures
            result@.map_values(|e: StoredEvent| e@) == query_result(self.log(), query, from@),
    {
        proof {
            use_type_invariant(self);
        }
        let ghost pred = |e: StoredEventView| e.global_sequence >= from@ && view_matches(e, query);
        let mut out: Vec<StoredEvent> = Vec::new();
        let mut i: usize = 0;
        while i < self.events.len()
            invariant
                i <= self.events@.len(),
                self.log().len() == self.events@.len(),
                pred == (|e: StoredEventView| e.global_sequence >= from@ && view_matches(e, query)),
                out@.map_values(|e: StoredEvent| e@) == self.log().take(i as int).filter(pred),
            decreases self.events@.len() - i,
        {
            let e = &self.events[i];
            proof {
                assert(self.log()[i as int] == e@);
                e.lemma_tag_set();
                assert(self.log().take(i + 1).drop_last() =~= self.log().take(i as int));
                assert(self.log().take(i + 1).last() == e@);
                assert(self.log().take(i + 1) =~= self.log().take(i as int).push(e@));
                self.log().take(i as int).lemma_filter_push(e@, pred);
            }
            let ghost prev = out@.map_values(|e: StoredEvent| e@);
            if from.get() <= e.global_sequence.get() && event_matches_query(e, &query) {
                let c = e.clone();
                out.push(c);
                proof {
                    assert(pred(e@));
                    assert(self.log().take(i + 1).filter(pred) == self.log().take(i as int).filter(pred).push(e@));
                    assert(out@.map_values(|e: StoredEvent| e@) =~= prev.push(e@));
                }
            } else {
                proof {
                    assert(!pred(e@));
                    assert(self.log().take(i + 1).filter(pred) == self.log().take(i as int).filter(pred));
                }
            }
            i = i + 1;
        }
        proof {
            assert(self.log().take(self.events@.len() as int) =~= self.log());
        }
        out
    }
}

/// An append whose condition checks from the current position on cannot
/// conflict: no event comes after the current position.
pub proof fn lemma_no_conflict_after_current(log: Seq<StoredEventView>, condition: AppendCondition)
    requires
        sequential(log),
        condition.after@ >= log.len(),
    ensures
        !has_conflict(log, condition),
{
    assert forall|i: int| !#[trigger] conflicts_at(log, condition, i) by {
        if 0 <= i < log.len() {
            assert(log[i].global_sequence == i + 1);
        }
    }
}

/// Of two appends that check the same condition from the same position, once
/// the first has stored an event that matches the condition's query, the
/// second conflicts: at most one of them succeeds.
pub proof fn lemma_second_conditional_append_conflicts(
    before: Seq<StoredEventView>,
    events: Seq<NewEvent>,
    after: Seq<StoredEventView>,
    condition: AppendCondition,
    k: int,
)
    requires
        sequential(before),
        appended(before, events, after),
        condition.after@ <= before.len(),
        0 <= k < events.len(),
        condition.query.spec_matches(events[k].event_type@, events[k].tags@),
    ensures
        has_conflict(after, condition),
{
    let i = before.len() + k;
    assert(after[i].global_sequence == before.len() + k + 1);
    events[k].tags.lemma_view_is_elements();
    assert(conflicts_at(after, condition, i));
}

/// Read your writes: after an append, a query from the first new position
/// returns exactly the new events when the query matches each of them.
pub proof fn lemma_appended_events_are_read_back(
    before: Seq<StoredEventView>,
    events: Seq<NewEvent>,
    after: Seq<StoredEventView>,
    query: Query,
)
    requires
        sequential(before),
        appended(before, events, after),
        after.len() < u64::MAX,
        forall|k: int| 0 <= k < events.len() ==> query.spec_matches((#[trigger] events[k]).event_type@, events[k].tags@),
    ensures
        query_result(after, query, (before.len() + 1) as u64) == after.subrange(before.len() as int, after.len() as int),
{
    let from = (before.len() + 1) as u64;
    let pred = |e: StoredEventView| e.global_sequence >= from && view_matches(e, query);
    let tail = after.subrange(before.len() as int, after.len() as int);
    assert(after =~= before + tail);
    Seq::filter_distributes_over_add(before, tail, pred);
    assert forall|i: int| 0 <= i < before.len() implies !pred(#[trigger] before[i]) by {
        assert(before[i].global_sequence == i + 1);
    }
    before.lemma_all_neg_filter_empty(pred);
    assert forall|i: int| 0 <= i < tail.len() implies pred(#[trigger] tail[i]) by {
        assert(tail[i] == after[before.len() + i]);
        events[i].tags.lemma_view_is_elements();
    }
    lemma_filter_keeps_all(tail, pred);
    assert(before.filter(pred) =~= Seq::<StoredEventView>::empty());
    assert(before.filter(pred) + tail.filter(pred) =~= tail);
}

/// A query's results come in strictly increasing position order, each from
/// position `from` on and matching the query, and each one stored in the log.
pub proof fn lemma_query_result_ordered(log: Seq<StoredEventView>, query: Query, from: u64)
    requires
        sequential(log),
    ensures
        forall|i: int, j: int| 0 <= i < j < query_result(log, query, from).len()
            ==> (#[trigger] query_result(log, query, from)[i]).global_sequence
                < (#[trigger] query_result(log, query, from)[j]).global_sequence,
        forall|i: int| 0 <= i < query_result(log, query, from).len() ==> {
            let e = #[trigger] query_result(log, query, from)[i];
            &&& e.global_sequence >= from
            &&& view_matches(e, query)
            &&& log.contains(e)
        },
    decreases log.len(),
{
    reveal(Seq::filter);
    let pred = |e: StoredEventView| e.global_sequence >= from && view_matches(e, query);
    let r = query_result(log, query, from);
    if log.len() > 0 {
        let prefix = log.drop_last();
        assert(sequential(prefix)) by {
            assert forall|i: int| 0 <= i < prefix.len() implies (#[trigger] prefix[i]).global_sequence == i + 1 by {
                assert(prefix[i] == log[i]);
            }
        }
        lemma_query_result_ordered(prefix, query, from);
        let rp = query_result(prefix, query, from);
        assert(r == (if pred(log.last()) { rp.push(log.last()) } else { rp }));
        assert forall|i: int| 0 <= i < rp.len() implies (#[trigger] rp[i]).global_sequence < log.len() by {
            let e = rp[i];
            assert(prefix.contains(e));
            let k = choose|k: int| 0 <= k < prefix.len() && prefix[k] == e;
            assert(prefix[k].global_sequence == k + 1);
        }
        assert(log.last().global_sequence == log.len());
        assert forall|i: int| 0 <= i < r.len() implies {
            let e = #[trigger] r[i];
            &&& e.global_sequence >= from
            &&& view_matches(e, query)
            &&& log.contains(e)
        } by {
            if i < rp.len() {
                assert(r[i] == rp[i]);
                let k = choose|k: int| 0 <= k < prefix.len() && prefix[k] == rp[i];
                assert(log[k] == prefix[k]);
            } else {
                assert(r[i] == log.last());
                assert(log[log.len() - 1] == log.last());
            }
        }
    }
}

/// Filtering with a predicate that holds of every element keeps the sequence.
proof fn lemma_filter_keeps_all(s: Seq<StoredEventView>, pred: spec_fn(StoredEventView) -> bool)
    requires
        forall|i: int| 0 <= i < s.len() ==> pred(#[trigger] s[i]),
    ensures
        s.filter(pred) == s,
    decreases s.len(),
{
    reveal(Seq::filter);
    if s.len() > 0 {
        lemma_filter_keeps_all(s.drop_last(), pred);
        assert(pred(s[s.len() - 1]));
        assert(s.drop_last().push(s.last()) =~= s);
    }
}

} // verus!
