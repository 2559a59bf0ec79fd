//! Queries over stored events: tag filters, criteria, and queries made of
//! criteria.
use vstd::prelude::*;

use crate::event::StoredEvent;
use crate::text::{str_ends_with, str_starts_with};
use crate::types::{EventType, EventTypeSet, Tag, TagSet};

verus! {

/// A filter over the tag set of an event.
/// - `Equals(tag)`: the event carries this exact tag;
/// - `StartsWith(prefix)`: some tag of the event starts with `prefix`;
/// - `EndsWith(suffix)`: some tag of the event ends with `suffix`;
/// - `And(filters)`: every filter holds (`And` of nothing holds);
/// - `Or(filters)`: some filter holds (`Or` of nothing does not hold).
#[derive(Debug, PartialEq, Eq)]
pub enum TagFilter {
    Equals(Tag),
    StartsWith(String),
    EndsWith(String),
    And(Vec<TagFilter>),
    Or(Vec<TagFilter>),
}

impl TagFilter {
    /// A copy of the filter, equal to it in every part that matching reads.
    pub fn duplicate(&self) -> (result: TagFilter)
        ensures
            result.same_as(*self),
        decreases self,
    {
        match self {
            TagFilter::Equals(t) => TagFilter::Equals(t.clone()),
            TagFilter::StartsWith(p) => TagFilter::StartsWith(p.clone()),
            TagFilter::EndsWith(s) => TagFilter::EndsWith(s.clone()),
            TagFilter::And(fs) => TagFilter::And(Self::duplicate_all(fs)),
            TagFilter::Or(fs) => TagFilter::Or(Self::duplicate_all(fs)),
        }
    }

    fn duplicate_all(fs: &Vec<TagFilter>) -> (result: Vec<TagFilter>)
        ensures
            result@.len() == fs@.len(),
            forall|i: int| 0 <= i < fs@.len() ==> (#[trigger] result@[i]).same_as(fs@[i]),
        decreases fs,
    {
        let mut out: Vec<TagFilter> = Vec::new();
        let mut i: usize = 0;
        while i < fs.len()
            invariant
                i <= fs@.len(),
                out@.len() == i,
                forall|k: int| 0 <= k < i ==> (#[trigger] out@[k]).same_as(fs@[k]),
            decreases fs@.len() - i,
        {
            out.push(fs[i].duplicate());
            i = i + 1;
        }
        out
    }

    /// Structural equality of filters by the views of their parts.
    pub open spec fn same_as(self, other: TagFilter) -> bool
        decreases self,
    {
        match (self, other) {
            (TagFilter::Equals(a), TagFilter::Equals(b)) => a@ == b@,
            (TagFilter::StartsWith(a), TagFilter::StartsWith(b)) => a@ == b@,
            (TagFilter::EndsWith(a), TagFilter::EndsWith(b)) => a@ == b@,
            (TagFilter::And(a), TagFilter::And(b)) => a@.len() == b@.len() && forall|i: int|
                0 <= i < a@.len() ==> (#[trigger] a@[i]).same_as(b@[i]),
            (TagFilter::Or(a), TagFilter::Or(b)) => a@.len() == b@.len() && forall|i: int|
                0 <= i < a@.len() ==> (#[trigger] a@[i]).same_as(b@[i]),
            _ => false,
        }
    }

    /// Whether the filter holds of an event whose tags are `tags`.
    pub open spec fn spec_matches(self, tags: Set<Seq<char>>) -> bool
        decreases self,
    {
        match self {
            TagFilter::Equals(t) => tags.contains(t@),
            TagFilter::StartsWith(p) => exists|t: Seq<char>| #[trigger] tags.contains(t) && p@.is_prefix_of(t),
            TagFilter::EndsWith(s) => exists|t: Seq<char>| #[trigger] tags.contains(t) && s@.is_suffix_of(t),
            TagFilter::And(fs) => forall|i: int|
                0 <= i < fs@.len() ==> (#[trigger] fs@[i]).spec_matches(tags),
            TagFilter::Or(fs) => exists|i: int|
                0 <= i < fs@.len() && (#[trigger] fs@[i]).spec_matches(tags),
        }
    }

    /// Evaluates the filter against the full tag set of an event.
    pub fn matches(&self, tags: &TagSet) -> (result: bool)
        ensures
            result == self.spec_matches(tags@),
        decreases self,
    {
        match self {
            TagFilter::Equals(t) => tags.contains(t),
            TagFilter::StartsWith(prefix) => any_tag_with_prefix(tags, prefix.as_str()),
            TagFilter::EndsWith(suffix) => any_tag_with_suffix(tags, suffix.as_str()),
            TagFilter::And(filters) => Self::matches_all(filters, tags),
            TagFilter::Or(filters) => Self::matches_any(filters, tags),
        }
    }

    fn matches_all(filters: &Vec<TagFilter>, tags: &TagSet) -> (result: bool)
        ensures
            result == forall|i: int| 0 <= i < filters@.len() ==> (#[trigger] filters@[i]).spec_matches(tags@),
        decreases filters,
    {
        let mut i: usize = 0;
        while i < filters.len()
            invariant
                i <= filters@.len(),
                forall|k: int| 0 <= k < i ==> (#[trigger] filters@[k]).spec_matches(tags@),
            decreases filters@.len() - i,
        {
            if !filters[i].matches(tags) {
                return false;
            }
            i = i + 1;
        }
        true
    }

    fn matches_any(filters: &Vec<TagFilter>, tags: &TagSet) -> (result: bool)
        ensures
            result == exists|i: int| 0 <= i < filters@.len() && (#[trigger] filters@[i]).spec_matches(tags@),
        decreases filters,
    {
        let mut i: usize = 0;
        while i < filters.len()
            invariant
                i <= filters@.len(),
                forall|k: int| 0 <= k < i ==> !(#[trigger] filters@[k]).spec_matches(tags@),
            decreases filters@.len() - i,
        {
            if filters[i].matches(tags) {
                return true;
            }
            i = i + 1;
        }
        false
    }
}

/// Whether some tag of `tags` starts with `prefix`.
fn any_tag_with_prefix(tags: &TagSet, prefix: &str) -> (result: bool)
    ensures
        result == exists|t: Seq<char>| #[trigger] tags@.contains(t) && prefix@.is_prefix_of(t),
{
    let _ = tags.elements_are_distinct();
    let mut i: usize = 0;
    let n = tags.len();
    while i < n
        invariant
            n == tags@.len(),
            n == tags.elements().len(),
            tags.elements().to_set() == tags@,
            i <= n,
            forall|k: int| 0 <= k < i ==> !prefix@.is_prefix_of(#[trigger] tags.elements()[k]),
        decreases n - i,
    {
        if str_starts_with(tags.get(i).as_str(), prefix) {
            proof {
                let t = tags.elements()[i as int];
                assert(tags.elements().contains(t));
                assert(tags@.contains(t));
            }
            return true;
        }
        i = i + 1;
    }
    proof {
        assert forall|t: Seq<char>| #[trigger] tags@.contains(t) implies !prefix@.is_prefix_of(t) by {
            assert(tags.elements().to_set().contains(t));
            let k = choose|k: int| 0 <= k < tags.elements().len() && tags.elements()[k] == t;
        }
    }
    false
}

/// Whether some tag of `tags` ends with `suffix`.
fn any_tag_with_suffix(tags: &TagSet, suffix: &str) -> (result: bool)
    ensures
        result == exists|t: Seq<char>| #[trigger] tags@.contains(t) && suffix@.is_suffix_of(t),
{
    let _ = tags.elements_are_distinct();
    let mut i: usize = 0;
    let n = tags.len();
    while i < n
        invariant
            n == tags@.len(),
            n == tags.elements().len(),
            tags.elements().to_set() == tags@,
            i <= n,
            forall|k: int| 0 <= k < i ==> !suffix@.is_suffix_of(#[trigger] tags.elements()[k]),
        decreases n - i,
    {
        if str_ends_with(tags.get(i).as_str(), suffix) {
            proof {
                let t = tags.elements()[i as int];
                assert(tags.elements().contains(t));
                assert(tags@.contains(t));
            }
            return true;
        }
        i = i + 1;
    }
    proof {
        assert forall|t: Seq<char>| #[trigger] tags@.contains(t) implies !suffix@.is_suffix_of(t) by {
            assert(tags.elements().to_set().contains(t));
            let k = choose|k: int| 0 <= k < tags.elements().len() && tags.elements()[k] == t;
        }
    }
    false
}

impl Clone for TagFilter {
    fn clone(&self) -> (result: TagFilter)
        ensures
            result.same_as(*self),
    {
        self.duplicate()
    }
}

/// Filters that are the same part by part hold of the same tag sets: a copy
/// of a filter matches exactly what the filter matches.
pub proof fn lemma_same_filters_match_alike(f: TagFilter, g: TagFilter, tags: Set<Seq<char>>)
    requires
        f.same_as(g),
    ensures
        f.spec_matches(tags) == g.spec_matches(tags),
    decreases f,
{
    match (f, g) {
        (TagFilter::And(a), TagFilter::And(b)) => {
            assert forall|i: int| 0 <= i < a@.len() implies (#[trigger] a@[i]).spec_matches(tags) == b@[i].spec_matches(tags) by {
                assert(decreases_to!(f => a));
                lemma_same_filters_match_alike(a@[i], b@[i], tags);
            }
            if !f.spec_matches(tags) {
                let i = choose|i: int| 0 <= i < a@.len() && !(#[trigger] a@[i]).spec_matches(tags);
                assert(!b@[i].spec_matches(tags));
            }
            if !g.spec_matches(tags) {
                let i = choose|i: int| 0 <= i < b@.len() && !(#[trigger] b@[i]).spec_matches(tags);
                assert(!a@[i].spec_matches(tags));
            }
        },
        (TagFilter::Or(a), TagFilter::Or(b)) => {
            assert forall|i: int| 0 <= i < a@.len() implies (#[trigger] a@[i]).spec_matches(tags) == b@[i].spec_matches(tags) by {
                assert(decreases_to!(f => a));
                lemma_same_filters_match_alike(a@[i], b@[i], tags);
            }
            if f.spec_matches(tags) {
                let i = choose|i: int| 0 <= i < a@.len() && (#[trigger] a@[i]).spec_matches(tags);
                assert(b@[i].spec_matches(tags));
            }
            if g.spec_matches(tags) {
                let i = choose|i: int| 0 <= i < b@.len() && (#[trigger] b@[i]).spec_matches(tags);
                assert(a@[i].spec_matches(tags));
            }
        },
        _ => {},
    }
}

/// Filters are monotone: a filter that holds of a tag set holds of every
/// tag set that contains it (no filter asks for a tag to be absent).
pub proof fn lemma_filter_monotone(f: TagFilter, tags: Set<Seq<char>>, more: Set<Seq<char>>)
    requires
        tags.subset_of(more),
        f.spec_matches(tags),
    ensures
        f.spec_matches(more),
    decreases f,
{
    match f {
        TagFilter::Equals(t) => {},
        TagFilter::StartsWith(p) => {
            let t = choose|t: Seq<char>| #[trigger] tags.contains(t) && p@.is_prefix_of(t);
            assert(more.contains(t));
        },
        TagFilter::EndsWith(x) => {
            let t = choose|t: Seq<char>| #[trigger] tags.contains(t) && x@.is_suffix_of(t);
            assert(more.contains(t));
        },
        TagFilter::And(fs) => {
            assert forall|i: int| 0 <= i < fs@.len() implies (#[trigger] fs@[i]).spec_matches(more) by {
                assert(decreases_to!(f => fs));
                lemma_filter_monotone(fs@[i], tags, more);
            }
        },
        TagFilter::Or(fs) => {
            let i = choose|i: int| 0 <= i < fs@.len() && (#[trigger] fs@[i]).spec_matches(tags);
            assert(decreases_to!(f => fs));
            lemma_filter_monotone(fs@[i], tags, more);
        },
    }
}

/// The three tag tests, on an event with a single tag `t`: `equals(a)`
/// holds exactly when `t` is `a`; `starts_with(p)` exactly when `t` is `p`
/// followed by something (so of `p + x` for every `x`); `ends_with(x)`
/// exactly when `t` is something followed by `x`.
pub proof fn lemma_single_tag_tests(f: TagFilter, t: Seq<char>, x: Seq<char>)
    ensures
        f matches TagFilter::Equals(a) ==> (f.spec_matches(set![t]) <==> t == a@),
        f matches TagFilter::StartsWith(p) ==> {
            &&& f.spec_matches(set![t]) <==> (p@.len() <= t.len() && t.subrange(0, p@.len() as int) == p@)
            &&& TagFilter::StartsWith(p).spec_matches(set![p@ + x])
        },
        f matches TagFilter::EndsWith(e) ==> {
            &&& f.spec_matches(set![t]) <==> (e@.len() <= t.len() && t.subrange(t.len() - e@.len(), t.len() as int) == e@)
            &&& TagFilter::EndsWith(e).spec_matches(set![x + e@])
        },
{
    match f {
        TagFilter::Equals(a) => {},
        TagFilter::StartsWith(p) => {
            let u = p@ + x;
            assert(u.subrange(0, p@.len() as int) =~= p@);
            assert(set![u].contains(u));
            if p@.len() <= t.len() && t.subrange(0, p@.len() as int) == p@ {
                assert(p@.is_prefix_of(t));
                assert(set![t].contains(t));
            }
            if f.spec_matches(set![t]) {
                let w = choose|w: Seq<char>| #[trigger] set![t].contains(w) && p@.is_prefix_of(w);
                assert(w == t);
                assert(t.subrange(0, p@.len() as int) =~= p@);
            }
        },
        TagFilter::EndsWith(e) => {
            let u = x + e@;
            assert(u.subrange(u.len() - e@.len(), u.len() as int) =~= e@);
            assert(set![u].contains(u));
            if e@.len() <= t.len() && t.subrange(t.len() - e@.len(), t.len() as int) == e@ {
                assert(e@.is_suffix_of(t));
                assert(set![t].contains(t));
            }
            if f.spec_matches(set![t]) {
                let w = choose|w: Seq<char>| #[trigger] set![t].contains(w) && e@.is_suffix_of(w);
                assert(w == t);
                assert(t.subrange(t.len() - e@.len(), t.len() as int) =~= e@);
            }
        },
        _ => {},
    }
}

/// A single criterion of a query. An event meets it when its type is in
/// `event_types` (an empty set admits every type) and, if there is a tag
/// filter, the filter holds of its tags.
#[derive(Debug, Clone, PartialEq, Eq)]
pub struct Criterion {
    pub event_types: EventTypeSet,
    pub tag_filter: Option<TagFilter>,
}

impl Criterion {
    /// Whether an event of type `event_type` carrying `tags` meets the criterion.
    pub open spec fn spec_matches(self, event_type: Seq<char>, tags: Set<Seq<char>>) -> bool {
        &&& (self.event_types@.len() == 0 || self.event_types@.contains(event_type))
        &&& match self.tag_filter {
            None => true,
            Some(f) => f.spec_matches(tags),
        }
    }

    /// Whether an event of type `event_type` carrying `tags` meets the criterion.
    pub fn matches(&self, event_type: &EventType, tags: &TagSet) -> (result: bool)
        ensures
            result == self.spec_matches(event_type@, tags@),
    {
        let type_match = self.event_types.is_empty() || self.event_types.contains(event_type);
        let tag_match = match &self.tag_filter {
            None => true,
            Some(f) => f.matches(tags),
        };
        type_match && tag_match
    }
}

/// A query: a list of criteria. An event matches when it meets any criterion;
/// a query without criteria matches nothing (`Query::all` matches everything).
#[derive(Debug, Clone, PartialEq, Eq)]
pub struct Query {
    pub criteria: Vec<Criterion>,
}

impl Query {
    /// Whether an event of type `event_type` carrying `tags` matches the query.
    pub open spec fn spec_matches(self, event_type: Seq<char>, tags: Set<Seq<char>>) -> bool {
        exists|i: int| 0 <= i < self.criteria@.len() && (#[trigger] self.criteria@[i]).spec_matches(event_type, tags)
    }

    /// Matches every event: one criterion with no type and no tag restriction.
    pub fn all() -> (result: Query)
        ensures
            result.criteria@.len() == 1,
            result.criteria@[0].event_types@.len() == 0,
            result.criteria@[0].tag_filter is None,
            forall|event_type: Seq<char>, tags: Set<Seq<char>>| #[trigger] result.spec_matches(event_type, tags),
    {
        let mut criteria: Vec<Criterion> = Vec::new();
        criteria.push(Criterion { event_types: EventTypeSet::new(), tag_filter: None });
        let result = Query { criteria };
        assert forall|event_type: Seq<char>, tags: Set<Seq<char>>| #[trigger] result.spec_matches(event_type, tags) by {
            assert(result.criteria@[0].spec_matches(event_type, tags));
        }
        result
    }

    /// Matches events that carry every one of `tags`. Without tags this is
    /// `Query::all()`; otherwise one criterion whose filter is the `And` of one
    /// `Equals` per tag, in the given order.
    pub fn match_tags(tags: Vec<Tag>) -> (result: Query)
        ensures
            result.criteria@.len() == 1,
            result.criteria@[0].event_types@.len() == 0,
            tags@.len() == 0 ==> result.criteria@[0].tag_filter is None,
            tags@.len() > 0 ==> (result.criteria@[0].tag_filter matches Some(TagFilter::And(fs))
                && fs@.len() == tags@.len()
                && forall|i: int| 0 <= i < fs@.len() ==> (#[trigger] fs@[i] matches TagFilter::Equals(t) && t@ == tags@[i]@)),
            forall|event_type: Seq<char>, set: Set<Seq<char>>| #[trigger] result.spec_matches(event_type, set)
                <==> (forall|i: int| 0 <= i < tags@.len() ==> set.contains(#[trigger] tags@[i]@)),
    {
        if tags.len() == 0 {
            return Query::all();
        }
        let ghost input = tags@;
        let mut filters: Vec<TagFilter> = Vec::new();
        let mut rest = tags;
        let n = rest.len();
        let mut i: usize = 0;
        while i < n
            invariant
                n == input.len(),
                i <= n,
                rest@ == input.subrange(i as int, n as int),
                filters@.len() == i,
                forall|k: int| 0 <= k < i ==> (#[trigger] filters@[k] matches TagFilter::Equals(t) && t@ == input[k]@),
            decreases n - i,
        {
            let t = rest.remove(0);
            proof {
                assert(t == input[i as int]);
                assert(rest@ =~= input.subrange(i + 1, n as int));
            }
            filters.push(TagFilter::Equals(t));
            i = i + 1;
        }
        let filter = TagFilter::And(filters);
        let mut criteria: Vec<Criterion> = Vec::new();
        criteria.push(Criterion { event_types: EventTypeSet::new(), tag_filter: Some(filter) });
        let result = Query { criteria };
        proof {
            assert forall|event_type: Seq<char>, set: Set<Seq<char>>| #[trigger] result.spec_matches(event_type, set)
                <==> (forall|i: int| 0 <= i < input.len() ==> set.contains(#[trigger] input[i]@)) by {
                let c = result.criteria@[0];
                let fs = match c.tag_filter { Some(TagFilter::And(fs)) => fs, _ => filters };
                if forall|i: int| 0 <= i < input.len() ==> set.contains(#[trigger] input[i]@) {
                    assert forall|i: int| 0 <= i < fs@.len() implies (#[trigger] fs@[i]).spec_matches(set) by {
                        assert(set.contains(input[i]@));
                    }
                    assert(c.spec_matches(event_type, set));
                }
                if result.spec_matches(event_type, set) {
                    let j = choose|j: int| 0 <= j < result.criteria@.len() && (#[trigger] result.criteria@[j]).spec_matches(event_type, set);
                    assert(j == 0);
                    assert forall|i: int| 0 <= i < input.len() implies set.contains(#[trigger] input[i]@) by {
                        assert(fs@[i].spec_matches(set));
                    }
                }
            }
        }
        result
    }

    /// Matches events of any of the given types (of every type when none is given).
    pub fn match_event_types(event_types: &[&str]) -> (result: Query)
        ensures
            result.criteria@.len() == 1,
            result.criteria@[0].tag_filter is None,
            forall|x: Seq<char>| #[trigger] result.criteria@[0].event_types@.contains(x)
                <==> exists|i: int| 0 <= i < event_types@.len() && x == (#[trigger] event_types@[i])@,
            forall|event_type: Seq<char>, set: Set<Seq<char>>| #[trigger] result.spec_matches(event_type, set)
                <==> (event_types@.len() == 0
                    || exists|i: int| 0 <= i < event_types@.len() && event_type == (#[trigger] event_types@[i])@),
    {
        let mut types = EventTypeSet::new();
        let mut i: usize = 0;
        while i < event_types.len()
            invariant
                i <= event_types@.len(),
                forall|x: Seq<char>| #[trigger] types@.contains(x)
                    <==> exists|k: int| 0 <= k < i && x == (#[trigger] event_types@[k])@,
            decreases event_types@.len() - i,
        {
            let name: String = event_types[i].to_owned();
            let ghost before = types@;
            types.insert(name);
            proof {
                assert forall|x: Seq<char>| #[trigger] types@.contains(x)
                    <==> exists|k: int| 0 <= k < i + 1 && x == (#[trigger] event_types@[k])@ by {
                    if x == event_types@[i as int]@ {
                        assert(0 <= i < i + 1 && x == event_types@[i as int]@);
                    }
                    if exists|k: int| 0 <= k < i + 1 && x == (#[trigger] event_types@[k])@ {
                        let k = choose|k: int| 0 <= k < i + 1 && x == (#[trigger] event_types@[k])@;
                        if k < i {
                            assert(before.contains(x));
                        }
                    }
                }
            }
            i = i + 1;
        }
        let _ = types.elements_are_distinct();
        let ghost types_view = types@;
        let mut criteria: Vec<Criterion> = Vec::new();
        criteria.push(Criterion { event_types: types, tag_filter: None });
        let result = Query { criteria };
        proof {
            assert forall|event_type: Seq<char>, set: Set<Seq<char>>| #[trigger] result.spec_matches(event_type, set)
                <==> (event_types@.len() == 0
                    || exists|i: int| 0 <= i < event_types@.len() && event_type == (#[trigger] event_types@[i])@) by {
                let c = result.criteria@[0];
                if event_types@.len() == 0 {
                    assert(c.event_types@ =~= Set::<Seq<char>>::empty()) by {
                        assert forall|x: Seq<char>| !c.event_types@.contains(x) by {}
                    }
                    assert(c.spec_matches(event_type, set));
                } else {
                    assert(c.event_types@.contains(event_types@[0]@));
                    assert(types_view.finite());
                    assert(c.event_types@.remove(event_types@[0]@).len() + 1 == c.event_types@.len());
                    assert(c.event_types@.len() != 0);
                    if exists|i: int| 0 <= i < event_types@.len() && event_type == (#[trigger] event_types@[i])@ {
                        assert(c.spec_matches(event_type, set));
                    }
                    if result.spec_matches(event_type, set) {
                        let j = choose|j: int| 0 <= j < result.criteria@.len() && (#[trigger] result.criteria@[j]).spec_matches(event_type, set);
                        assert(j == 0);
                    }
                }
            }
        }
        result
    }

    /// Adds a criterion, returning the modified query; it then matches what
    /// either matched.
    pub fn or(self, criterion: Criterion) -> (result: Query)
        ensures
            result.criteria@ == self.criteria@.push(criterion),
            forall|event_type: Seq<char>, set: Set<Seq<char>>| #[trigger] result.spec_matches(event_type, set)
                <==> (self.spec_matches(event_type, set) || criterion.spec_matches(event_type, set)),
    {
        let ghost old_criteria = self.criteria@;
        let ghost c = criterion;
        let mut criteria = self.criteria;
        criteria.push(criterion);
        let result = Query { criteria };
        proof {
            assert forall|event_type: Seq<char>, set: Set<Seq<char>>| #[trigger] result.spec_matches(event_type, set)
                <==> (self.spec_matches(event_type, set) || c.spec_matches(event_type, set)) by {
                if self.spec_matches(event_type, set) {
                    let j = choose|j: int| 0 <= j < old_criteria.len() && (#[trigger] old_criteria[j]).spec_matches(event_type, set);
                    assert(result.criteria@[j] == old_criteria[j]);
                }
                if c.spec_matches(event_type, set) {
                    assert(result.criteria@[old_criteria.len() as int] == c);
                }
                if result.spec_matches(event_type, set) {
                    let j = choose|j: int| 0 <= j < result.criteria@.len() && (#[trigger] result.criteria@[j]).spec_matches(event_type, set);
                    if j < old_criteria.len() {
                        assert(old_criteria[j] == result.criteria@[j]);
                    }
                }
            }
        }
        result
    }

    /// Whether an event of type `event_type` carrying `tags` matches the query.
    pub fn matches(&self, event_type: &EventType, tags: &TagSet) -> (result: bool)
        ensures
            result == self.spec_matches(event_type@, tags@),
    {
        if self.criteria.len() == 0 {
            return false;
        }
        let mut i: usize = 0;
        while i < self.criteria.len()
            invariant
                i <= self.criteria@.len(),
                forall|k: int| 0 <= k < i ==> !(#[trigger] self.criteria@[k]).spec_matches(event_type@, tags@),
            decreases self.criteria@.len() - i,
        {
            if self.criteria[i].matches(event_type, tags) {
                return true;
            }
            i = i + 1;
        }
        false
    }
}

/// Whether a stored event meets a single criterion.
pub fn event_matches_criterion(event: &StoredEvent, criterion: &Criterion) -> (result: bool)
    ensures
        result == criterion.spec_matches(event.event_type@, event.tags@),
{
    criterion.matches(&event.event_type, &event.tags)
}

/// Whether a stored event matches a query (meets any criterion).
pub fn event_matches_query(event: &StoredEvent, query: &Query) -> (result: bool)
    ensures
        result == query.spec_matches(event.event_type@, event.tags@),
{
    query.matches(&event.event_type, &event.tags)
}

/// A query without criteria matches no event.
pub proof fn lemma_empty_query_matches_nothing(query: Query, event_type: Seq<char>, tags: Set<Seq<char>>)
    requires
        query.criteria@.len() == 0,
    ensures
        !query.spec_matches(event_type, tags),
{
}

/// `And` of no filters holds of every tag set; `Or` of no filters holds of none.
pub proof fn lemma_empty_and_or(and_filter: TagFilter, or_filter: TagFilter, tags: Set<Seq<char>>)
    requires
        and_filter matches TagFilter::And(fs) && fs@.len() == 0,
        or_filter matches TagFilter::Or(fs) && fs@.len() == 0,
    ensures
        and_filter.spec_matches(tags),
        !or_filter.spec_matches(tags),
{
}

} // verus!
