//! Identifiers and values shared by the whole library: tags, tag sets and
//! global sequence identifiers.
use vstd::prelude::*;

verus! {

/// The name of an event's type.
pub type EventType = String;

/// Error returned when an empty tag is requested.
#[derive(Debug, Clone, Copy, PartialEq, Eq, Structural)]
pub struct InvalidTag;

impl InvalidTag {
    /// The error's message.
    pub fn message(&self) -> (result: String)
        ensures
            result@ == "tag must not be empty"@,
    {
        String::from_str("tag must not be empty")
    }
}

/// An opaque, non-empty tag that classifies an event. The library does not
/// interpret its contents.
#[derive(Debug, Hash)]
pub struct Tag(String);

impl View for Tag {
    type V = Seq<char>;

    closed spec fn view(&self) -> Seq<char> {
        self.0@
    }
}

impl Tag {
    #[verifier::type_invariant]
    spec fn non_empty(self) -> bool {
        self.0@.len() > 0
    }

    /// Builds a tag; the empty string is refused.
    pub fn new(value: &str) -> (result: Result<Tag, InvalidTag>)
        ensures
            value@.len() == 0 <==> result is Err,
            result matches Ok(t) ==> t@ == value@,
    {
        if value.is_empty() {
            return Err(InvalidTag);
        }
        Ok(Tag(value.to_owned()))
    }

    /// The tag's text, which is never empty.
    pub fn as_str(&self) -> (s: &str)
        ensures
            s@ == self@,
            s@.len() > 0,
    {
        proof {
            use_type_invariant(self);
        }
        self.0.as_str()
    }
}

impl Clone for Tag {
    fn clone(&self) -> (result: Tag)
        ensures
            result@ == self@,
    {
        proof {
            use_type_invariant(self);
        }
        Tag(self.0.clone())
    }
}

impl PartialEq for Tag {
    fn eq(&self, other: &Tag) -> (result: bool) {
        self.0 == other.0
    }
}

impl Eq for Tag {
}

impl vstd::std_specs::cmp::PartialEqSpecImpl for Tag {
    open spec fn obeys_eq_spec() -> bool {
        true
    }

    open spec fn eq_spec(&self, other: &Tag) -> bool {
        self@ == other@
    }
}

/// The decimal digits of `n`, most significant first, without leading zeros.
pub open spec fn decimal(n: nat) -> Seq<char>
    decreases n,
{
    if n < 10 {
        seq![digit_char(n)]
    } else {
        decimal(n / 10).push(digit_char(n % 10))
    }
}

/// The character of a decimal digit.
pub open spec fn digit_char(d: nat) -> char {
    (48 + d) as char
}

fn push_decimal(out: &mut String, n: u64)
    ensures
        final(out)@ == old(out)@ + decimal(n as nat),
    decreases n,
{
    if n >= 10 {
        push_decimal(out, n / 10);
    }
    let c = match n % 10 {
        0 => '0',
        1 => '1',
        2 => '2',
        3 => '3',
        4 => '4',
        5 => '5',
        6 => '6',
        7 => '7',
        8 => '8',
        _ => '9',
    };
    assert(c == digit_char((n % 10) as nat));
    out.push(c);
    proof {
        if n >= 10 {
            assert(decimal(n as nat) == decimal((n / 10) as nat).push(c));
            assert(out@ =~= old(out)@ + decimal(n as nat));
        } else {
            assert(out@ =~= old(out)@ + decimal(n as nat));
        }
    }
}

/// Position in the global order of all stored events. Starts at 1;
/// position 0 means "no events".
#[derive(Debug, Clone, Copy, PartialEq, Eq, Structural, PartialOrd, Ord, Hash)]
pub struct GlobalSequenceId(u64);

impl View for GlobalSequenceId {
    type V = u64;

    closed spec fn view(&self) -> u64 {
        self.0
    }
}

impl GlobalSequenceId {
    /// The position before every event.
    pub fn zero() -> (result: GlobalSequenceId)
        ensures
            result@ == 0,
    {
        GlobalSequenceId(0)
    }

    pub fn new(value: u64) -> (result: GlobalSequenceId)
        ensures
            result@ == value,
    {
        GlobalSequenceId(value)
    }

    pub fn get(self) -> (result: u64)
        ensures
            result == self@,
    {
        self.0
    }

    /// The following position.
    pub fn next(self) -> (result: GlobalSequenceId)
        requires
            self@ < u64::MAX,
        ensures
            result@ == self@ + 1,
    {
        GlobalSequenceId(self.0 + 1)
    }

    /// The position as decimal digits, as it is displayed.
    pub fn to_text(self) -> (result: String)
        ensures
            result@ == decimal(self@ as nat),
    {
        let mut out = String::new();
        push_decimal(&mut out, self.0);
        out
    }

    /// Orders two positions as their numbers do.
    pub fn is_before(self, other: GlobalSequenceId) -> (result: bool)
        ensures
            result == (self@ < other@),
    {
        self.0 < other.0
    }
}

/// The tags of an event: a set of tags, each held once.
#[derive(Debug)]
pub struct TagSet {
    tags: Vec<Tag>,
}

impl View for TagSet {
    type V = Set<Seq<char>>;

    closed spec fn view(&self) -> Set<Seq<char>> {
        self.tags@.map_values(|t: Tag| t@).to_set()
    }
}

impl TagSet {
    #[verifier::type_invariant]
    spec fn distinct(self) -> bool {
        forall|i: int, j: int|
            0 <= i < j < self.tags@.len() ==> #[trigger] self.tags@[i]@ != #[trigger] self.tags@[j]@
    }

    /// The tags in the order in which they were first inserted.
    pub closed spec fn elements(&self) -> Seq<Seq<char>> {
        self.tags@.map_values(|t: Tag| t@)
    }

    /// The set is the set of its elements.
    pub proof fn lemma_view_is_elements(&self)
        ensures
            self@ == self.elements().to_set(),
    {
    }

    proof fn lemma_elements(tags: Seq<Tag>)
        requires
            forall|i: int, j: int| 0 <= i < j < tags.len() ==> #[trigger] tags[i]@ != #[trigger] tags[j]@,
        ensures
            tags.map_values(|t: Tag| t@).no_duplicates(),
            tags.map_values(|t: Tag| t@).to_set().len() == tags.len(),
            tags.map_values(|t: Tag| t@).to_set().finite(),
    {
        let e = tags.map_values(|t: Tag| t@);
        assert forall|i: int, j: int| 0 <= i < e.len() && 0 <= j < e.len() && i != j implies e[i] != e[j] by {
            if i < j {
                assert(tags[i]@ != tags[j]@);
            } else {
                assert(tags[j]@ != tags[i]@);
            }
        }
        e.unique_seq_to_set();
    }

    /// The order of the elements holds each member of the set once.
    pub fn elements_are_distinct(&self) -> (result: bool)
        ensures
            result,
            self.elements().no_duplicates(),
            self.elements().to_set() == self@,
            self.elements().len() == self@.len(),
            self@.finite(),
    {
        proof {
            use_type_invariant(self);
            Self::lemma_elements(self.tags@);
        }
        true
    }

    /// The empty set.
    pub fn new() -> (result: TagSet)
        ensures
            result@ == Set::<Seq<char>>::empty(),
            result.elements() == Seq::<Seq<char>>::empty(),
    {
        let result = TagSet { tags: Vec::new() };
        assert(result.elements() =~= Seq::<Seq<char>>::empty());
        result
    }

    /// Number of distinct tags.
    pub fn len(&self) -> (result: usize)
        ensures
            result == self@.len(),
    {
        proof {
            use_type_invariant(self);
            Self::lemma_elements(self.tags@);
        }
        self.tags.len()
    }

    pub fn is_empty(&self) -> (result: bool)
        ensures
            result == (self@.len() == 0),
    {
        proof {
            use_type_invariant(self);
            Self::lemma_elements(self.tags@);
        }
        self.tags.len() == 0
    }

    /// Whether the set holds `tag`.
    pub fn contains(&self, tag: &Tag) -> (result: bool)
        ensures
            result == self@.contains(tag@),
    {
        let mut i: usize = 0;
        while i < self.tags.len()
            invariant
                i <= self.tags@.len(),
                forall|k: int| 0 <= k < i ==> self.tags@[k]@ != tag@,
            decreases self.tags@.len() - i,
        {
            if self.tags[i] == *tag {
                assert(self.elements()[i as int] == tag@);
                return true;
            }
            i = i + 1;
        }
        proof {
            if self@.contains(tag@) {
                let k = choose|k: int| 0 <= k < self.elements().len() && self.elements()[k] == tag@;
                assert(self.tags@[k]@ == tag@);
            }
        }
        false
    }

    /// Adds `tag`; returns whether it was new. The order of the other tags is kept.
    pub fn insert(&mut self, tag: Tag) -> (result: bool)
        ensures
            result == !old(self)@.contains(tag@),
            final(self)@ == old(self)@.insert(tag@),
            result ==> final(self).elements() == old(self).elements().push(tag@),
            !result ==> final(self).elements() == old(self).elements(),
    {
        if self.contains(&tag) {
            return false;
        }
        proof {
            use_type_invariant(&*self);
        }
        let ghost tv = tag@;
        let ghost before = self.tags@;
        let mut tags: Vec<Tag> = Vec::new();
        std::mem::swap(&mut tags, &mut self.tags);
        tags.push(tag);
        proof {
            assert forall|k: int| 0 <= k < before.len() implies before[k]@ != tv by {
                assert(old(self).elements()[k] == before[k]@);
            }
            assert(tags@ == before.push(tag));
        }
        self.tags = tags;
        proof {
            assert(self.elements() =~= old(self).elements().push(tv));
            assert(self@ =~= old(self)@.insert(tv)) by {
                assert forall|x: Seq<char>| self@.contains(x) <==> old(self)@.insert(tv).contains(x) by {
                    if self@.contains(x) {
                        let k = choose|k: int| 0 <= k < self.elements().len() && self.elements()[k] == x;
                        if k < before.len() {
                            assert(old(self).elements()[k] == x);
                        }
                    }
                    if old(self)@.contains(x) {
                        let k = choose|k: int| 0 <= k < old(self).elements().len() && old(self).elements()[k] == x;
                        assert(self.elements()[k] == x);
                    }
                    if x == tv {
                        assert(self.elements()[before.len() as int] == x);
                    }
                }
            }
        }
        true
    }

    /// Builds the set of the given tags; a repeated tag is held once.
    pub fn from_vec(tags: Vec<Tag>) -> (result: TagSet)
        ensures
            result@ == tags@.map_values(|t: Tag| t@).to_set(),
    {
        let mut result = TagSet::new();
        let mut rest = tags;
        let ghost all = rest@;
        let mut i: usize = 0;
        let n = rest.len();
        while i < n
            invariant
                n == all.len(),
                i <= n,
                rest@ == all.subrange(i as int, n as int),
                result@ == all.subrange(0, i as int).map_values(|t: Tag| t@).to_set(),
            decreases n - i,
        {
            let t = rest.remove(0);
            proof {
                assert(t == all[i as int]);
                assert(rest@ =~= all.subrange(i + 1, n as int));
            }
            result.insert(t);
            proof {
                let f = |t: Tag| t@;
                assert(all.subrange(0, i + 1).map_values(f) =~= all.subrange(0, i as int).map_values(f).push(all[i as int]@));
                all.subrange(0, i as int).map_values(f).lemma_push_to_set_commute(all[i as int]@);
            }
            i = i + 1;
        }
        proof {
            assert(all.subrange(0, n as int) =~= all);
        }
        result
    }

    /// The tag at position `index` in insertion order.
    pub fn get(&self, index: usize) -> (result: &Tag)
        requires
            index < self@.len(),
        ensures
            result@ == self.elements()[index as int],
    {
        proof {
            use_type_invariant(self);
            Self::lemma_elements(self.tags@);
        }
        &self.tags[index]
    }
}

impl Clone for TagSet {
    fn clone(&self) -> (result: TagSet)
        ensures
            result@ == self@,
            result.elements() == self.elements(),
    {
        proof {
            use_type_invariant(self);
        }
        let mut tags: Vec<Tag> = Vec::new();
        let mut i: usize = 0;
        while i < self.tags.len()
            invariant
                i <= self.tags@.len(),
                tags@.len() == i,
                forall|k: int| 0 <= k < i ==> #[trigger] tags@[k]@ == self.tags@[k]@,
                forall|a: int, b: int| 0 <= a < b < self.tags@.len() ==> #[trigger] self.tags@[a]@ != #[trigger] self.tags@[b]@,
            decreases self.tags@.len() - i,
        {
            tags.push(self.tags[i].clone());
            i = i + 1;
        }
        let result = TagSet { tags };
        assert(result.elements() =~= self.elements());
        result
    }
}

/// A set of event type names, each held once.
#[derive(Debug)]
pub struct EventTypeSet {
    tags: Vec<String>,
}

impl View for EventTypeSet {
    type V = Set<Seq<char>>;

    closed spec fn view(&self) -> Set<Seq<char>> {
        self.tags@.map_values(|t: String| t@).to_set()
    }
}

impl EventTypeSet {
    #[verifier::type_invariant]
    spec fn distinct(self) -> bool {
        forall|i: int, j: int|
            0 <= i < j < self.tags@.len() ==> #[trigger] self.tags@[i]@ != #[trigger] self.tags@[j]@
    }

    /// The names in the order in which they were first inserted.
    pub closed spec fn elements(&self) -> Seq<Seq<char>> {
        self.tags@.map_values(|t: String| t@)
    }

    proof fn lemma_elements(tags: Seq<String>)
        requires
            forall|i: int, j: int| 0 <= i < j < tags.len() ==> #[trigger] tags[i]@ != #[trigger] tags[j]@,
        ensures
            tags.map_values(|t: String| t@).no_duplicates(),
            tags.map_values(|t: String| t@).to_set().len() == tags.len(),
            tags.map_values(|t: String| t@).to_set().finite(),
    {
        let e = tags.map_values(|t: String| t@);
        assert forall|i: int, j: int| 0 <= i < e.len() && 0 <= j < e.len() && i != j implies e[i] != e[j] by {
            if i < j {
                assert(tags[i]@ != tags[j]@);
            } else {
                assert(tags[j]@ != tags[i]@);
            }
        }
        e.unique_seq_to_set();
    }

    /// The order of the elements holds each member of the set once.
    pub fn elements_are_distinct(&self) -> (result: bool)
        ensures
            result,
            self.elements().no_duplicates(),
            self.elements().to_set() == self@,
            self.elements().len() == self@.len(),
            self@.finite(),
    {
        proof {
            use_type_invariant(self);
            Self::lemma_elements(self.tags@);
        }
        true
    }

    /// The empty set.
    pub fn new() -> (result: EventTypeSet)
        ensures
            result@ == Set::<Seq<char>>::empty(),
            result.elements() == Seq::<Seq<char>>::empty(),
    {
        let result = EventTypeSet { tags: Vec::new() };
        assert(result.elements() =~= Seq::<Seq<char>>::empty());
        result
    }

    /// Number of distinct names.
    pub fn len(&self) -> (result: usize)
        ensures
            result == self@.len(),
    {
        proof {
            use_type_invariant(self);
            Self::lemma_elements(self.tags@);
        }
        self.tags.len()
    }

    pub fn is_empty(&self) -> (result: bool)
        ensures
            result == (self@.len() == 0),
    {
        proof {
            use_type_invariant(self);
            Self::lemma_elements(self.tags@);
        }
        self.tags.len() == 0
    }

    /// Whether the set holds `tag`.
    pub fn contains(&self, tag: &String) -> (result: bool)
        ensures
            result == self@.contains(tag@),
    {
        let mut i: usize = 0;
        while i < self.tags.len()
            invariant
                i <= self.tags@.len(),
                forall|k: int| 0 <= k < i ==> self.tags@[k]@ != tag@,
            decreases self.tags@.len() - i,
        {
            if self.tags[i] == *tag {
                assert(self.elements()[i as int] == tag@);
                return true;
            }
            i = i + 1;
        }
        proof {
            if self@.contains(tag@) {
                let k = choose|k: int| 0 <= k < self.elements().len() && self.elements()[k] == tag@;
                assert(self.tags@[k]@ == tag@);
            }
        }
        false
    }

    /// Adds `tag`; returns whether it was new. The order of the other tags is kept.
    pub fn insert(&mut self, tag: String) -> (result: bool)
        ensures
            result == !old(self)@.contains(tag@),
            final(self)@ == old(self)@.insert(tag@),
            result ==> final(self).elements() == old(self).elements().push(tag@),
            !result ==> final(self).elements() == old(self).elements(),
    {
        if self.contains(&tag) {
            return false;
        }
        proof {
            use_type_invariant(&*self);
        }
        let ghost tv = tag@;
        let ghost before = self.tags@;
        let mut tags: Vec<String> = Vec::new();
        std::mem::swap(&mut tags, &mut self.tags);
        tags.push(tag);
        proof {
            assert forall|k: int| 0 <= k < before.len() implies before[k]@ != tv by {
                assert(old(self).elements()[k] == before[k]@);
            }
            assert(tags@ == before.push(tag));
        }
        self.tags = tags;
        proof {
            assert(self.elements() =~= old(self).elements().push(tv));
            assert(self@ =~= old(self)@.insert(tv)) by {
                assert forall|x: Seq<char>| self@.contains(x) <==> old(self)@.insert(tv).contains(x) by {
                    if self@.contains(x) {
                        let k = choose|k: int| 0 <= k < self.elements().len() && self.elements()[k] == x;
                        if k < before.len() {
                            assert(old(self).elements()[k] == x);
                        }
                    }
                    if old(self)@.contains(x) {
                        let k = choose|k: int| 0 <= k < old(self).elements().len() && old(self).elements()[k] == x;
                        assert(self.elements()[k] == x);
                    }
                    if x == tv {
                        assert(self.elements()[before.len() as int] == x);
                    }
                }
            }
        }
        true
    }

    /// Builds the set of the given names; a repeated name is held once.
    pub fn from_vec(tags: Vec<String>) -> (result: EventTypeSet)
        ensures
            result@ == tags@.map_values(|t: String| t@).to_set(),
    {
        let mut result = EventTypeSet::new();
        let mut rest = tags;
        let ghost all = rest@;
        let mut i: usize = 0;
        let n = rest.len();
        while i < n
            invariant
                n == all.len(),
                i <= n,
                rest@ == all.subrange(i as int, n as int),
                result@ == all.subrange(0, i as int).map_values(|t: String| t@).to_set(),
            decreases n - i,
        {
            let t = rest.remove(0);
            proof {
                assert(t == all[i as int]);
                assert(rest@ =~= all.subrange(i + 1, n as int));
            }
            result.insert(t);
            proof {
                let f = |t: String| t@;
                assert(all.subrange(0, i + 1).map_values(f) =~= all.subrange(0, i as int).map_values(f).push(all[i as int]@));
                all.subrange(0, i as int).map_values(f).lemma_push_to_set_commute(all[i as int]@);
            }
            i = i + 1;
        }
        proof {
            assert(all.subrange(0, n as int) =~= all);
        }
        result
    }

    /// The name at position `index` in insertion order.
    pub fn get(&self, index: usize) -> (result: &String)
        requires
            index < self@.len(),
        ensures
            result@ == self.elements()[index as int],
    {
        proof {
            use_type_invariant(self);
            Self::lemma_elements(self.tags@);
        }
        &self.tags[index]
    }
}

impl Clone for EventTypeSet {
    fn clone(&self) -> (result: EventTypeSet)
        ensures
            result@ == self@,
            result.elements() == self.elements(),
    {
        proof {
            use_type_invariant(self);
        }
        let mut tags: Vec<String> = Vec::new();
        let mut i: usize = 0;
        while i < self.tags.len()
            invariant
                i <= self.tags@.len(),
                tags@.len() == i,
                forall|k: int| 0 <= k < i ==> #[trigger] tags@[k]@ == self.tags@[k]@,
                forall|a: int, b: int| 0 <= a < b < self.tags@.len() ==> #[trigger] self.tags@[a]@ != #[trigger] self.tags@[b]@,
            decreases self.tags@.len() - i,
        {
            tags.push(self.tags[i].clone());
            i = i + 1;
        }
        let result = EventTypeSet { tags };
        assert(result.elements() =~= self.elements());
        result
    }
}


impl TagSet {
    /// Whether the two sets hold the same members, in whatever order.
    pub fn same_members(&self, other: &TagSet) -> (result: bool)
        ensures
            result == (self@ == other@),
    {
        let _ = self.elements_are_distinct();
        let _ = other.elements_are_distinct();
        if self.len() != other.len() {
            return false;
        }
        let n = self.len();
        let mut i: usize = 0;
        while i < n
            invariant
                n == self@.len(),
                n == self.elements().len(),
                self.elements().to_set() == self@,
                i <= n,
                forall|k: int| 0 <= k < i ==> other@.contains(#[trigger] self.elements()[k]),
            decreases n - i,
        {
            if !other.contains(self.get(i)) {
                proof {
                    assert(self.elements().contains(self.elements()[i as int]));
                }
                return false;
            }
            i = i + 1;
        }
        proof {
            assert forall|x: Seq<char>| self@.contains(x) implies other@.contains(x) by {
                assert(self.elements().to_set().contains(x));
                let k = choose|k: int| 0 <= k < self.elements().len() && self.elements()[k] == x;
            }
            vstd::set_lib::lemma_subset_equality(self@, other@);
        }
        true
    }
}

impl PartialEq for TagSet {
    fn eq(&self, other: &TagSet) -> (result: bool) {
        self.same_members(other)
    }
}

impl Eq for TagSet {
}

impl vstd::std_specs::cmp::PartialEqSpecImpl for TagSet {
    open spec fn obeys_eq_spec() -> bool {
        true
    }

    open spec fn eq_spec(&self, other: &TagSet) -> bool {
        self@ == other@
    }
}

impl EventTypeSet {
    /// Whether the two sets hold the same members, in whatever order.
    pub fn same_members(&self, other: &EventTypeSet) -> (result: bool)
        ensures
            result == (self@ == other@),
    {
        let _ = self.elements_are_distinct();
        let _ = other.elements_are_distinct();
        if self.len() != other.len() {
            return false;
        }
        let n = self.len();
        let mut i: usize = 0;
        while i < n
            invariant
                n == self@.len(),
                n == self.elements().len(),
                self.elements().to_set() == self@,
                i <= n,
                forall|k: int| 0 <= k < i ==> other@.contains(#[trigger] self.elements()[k]),
            decreases n - i,
        {
            if !other.contains(self.get(i)) {
                proof {
                    assert(self.elements().contains(self.elements()[i as int]));
                }
                return false;
            }
            i = i + 1;
        }
        proof {
            assert forall|x: Seq<char>| self@.contains(x) implies other@.contains(x) by {
                assert(self.elements().to_set().contains(x));
                let k = choose|k: int| 0 <= k < self.elements().len() && self.elements()[k] == x;
            }
            vstd::set_lib::lemma_subset_equality(self@, other@);
        }
        true
    }
}

impl PartialEq for EventTypeSet {
    fn eq(&self, other: &EventTypeSet) -> (result: bool) {
        self.same_members(other)
    }
}

impl Eq for EventTypeSet {
}

impl vstd::std_specs::cmp::PartialEqSpecImpl for EventTypeSet {
    open spec fn obeys_eq_spec() -> bool {
        true
    }

    open spec fn eq_spec(&self, other: &EventTypeSet) -> bool {
        self@ == other@
    }
}
} // verus!

verus! {

/// An event submitted for appending. The store assigns its sequence number and
/// timestamp.
#[derive(Debug, Clone)]
pub struct NewEvent {
    pub event_type: EventType,
    pub payload: serde_json::Value,
    pub tags: TagSet,
}

} // verus!
