//! Event schema records: the field types that projections understand, field
//! descriptions, the schema of one event type, and the `Event` trait that ties
//! a Rust event type to its schema.
use vstd::prelude::*;

use crate::types::EventType;

verus! {

/// The scalar field types that projections understand.
#[derive(Debug, Clone, Copy, PartialEq, Eq, Structural, Hash)]
pub enum FieldType {
    String,
    Integer,
    Decimal,
    Date,
    DateTime,
}

/// One field of an event payload.
#[derive(Debug, PartialEq, Eq)]
pub struct FieldDef {
    pub name: String,
    pub field_type: FieldType,
    /// Whether the field may be absent from a payload.
    pub optional: bool,
}

impl FieldDef {
    /// The (name, type, optional) triple that compatibility compares.
    pub open spec fn key(self) -> (Seq<char>, FieldType, bool) {
        (self.name@, self.field_type, self.optional)
    }

    fn same_key(&self, other: &FieldDef) -> (result: bool)
        ensures
            result == (self.key() == other.key()),
    {
        self.name == other.name && self.field_type == other.field_type && self.optional == other.optional
    }
}

impl Clone for FieldDef {
    fn clone(&self) -> (result: FieldDef)
        ensures
            result.key() == self.key(),
    {
        FieldDef { name: self.name.clone(), field_type: self.field_type, optional: self.optional }
    }
}

/// The schema record of one event type: its name and its fields.
#[derive(Debug, PartialEq, Eq)]
pub struct EventSchemaDef {
    pub event_type: EventType,
    pub fields: Vec<FieldDef>,
}

/// What a schema record holds: its event type and its field triples, in order.
pub ghost struct EventSchemaView {
    pub event_type: Seq<char>,
    pub fields: Seq<(Seq<char>, FieldType, bool)>,
}

impl View for EventSchemaDef {
    type V = EventSchemaView;

    open spec fn view(&self) -> EventSchemaView {
        EventSchemaView {
            event_type: self.event_type@,
            fields: self.fields@.map_values(|f: FieldDef| f.key()),
        }
    }
}

impl Clone for EventSchemaDef {
    fn clone(&self) -> (result: EventSchemaDef)
        ensures
            result@ == self@,
    {
        let mut fields: Vec<FieldDef> = Vec::new();
        let mut i: usize = 0;
        while i < self.fields.len()
            invariant
                i <= self.fields@.len(),
                fields@.len() == i,
                forall|k: int| 0 <= k < i ==> (#[trigger] fields@[k]).key() == self.fields@[k].key(),
            decreases self.fields@.len() - i,
        {
            fields.push(self.fields[i].clone());
            i = i + 1;
        }
        let result = EventSchemaDef { event_type: self.event_type.clone(), fields };
        assert(result@.fields =~= self@.fields);
        result
    }
}

/// The set of field triples of a list of fields.
pub open spec fn field_keys(fields: Seq<FieldDef>) -> Set<(Seq<char>, FieldType, bool)> {
    fields.map_values(|f: FieldDef| f.key()).to_set()
}

/// Strict compatibility of two schema records: same event type and the same
/// set of (name, field type, optional) triples.
pub open spec fn compatible_views(a: EventSchemaView, b: EventSchemaView) -> bool {
    a.event_type == b.event_type && a.fields.to_set() == b.fields.to_set()
}

impl EventSchemaDef {
    /// Strict compatibility: same event type and the same set of
    /// (name, field type, optional) triples; field order is ignored.
    pub open spec fn spec_compatible(self, other: EventSchemaDef) -> bool {
        compatible_views(self@, other@)
    }

    /// Whether every field triple of `a` occurs in `b`.
    fn keys_included(a: &Vec<FieldDef>, b: &Vec<FieldDef>) -> (result: bool)
        ensures
            result == field_keys(a@).subset_of(field_keys(b@)),
    {
        let ghost fa = a@.map_values(|f: FieldDef| f.key());
        let ghost fb = b@.map_values(|f: FieldDef| f.key());
        let mut i: usize = 0;
        while i < a.len()
            invariant
                i <= a@.len(),
                fa == a@.map_values(|f: FieldDef| f.key()),
                fb == b@.map_values(|f: FieldDef| f.key()),
                forall|k: int| 0 <= k < i ==> fb.contains(#[trigger] fa[k]),
            decreases a@.len() - i,
        {
            let mut found = false;
            let mut j: usize = 0;
            while j < b.len()
                invariant
                    i < a@.len(),
                    j <= b@.len(),
                    fa == a@.map_values(|f: FieldDef| f.key()),
                    fb == b@.map_values(|f: FieldDef| f.key()),
                    found == exists|k: int| 0 <= k < j && #[trigger] fb[k] == fa[i as int],
                decreases b@.len() - j,
            {
                if a[i].same_key(&b[j]) {
                    found = true;
                }
                proof {
                    assert(fb[j as int] == b@[j as int].key());
                    assert(fa[i as int] == a@[i as int].key());
                }
                j = j + 1;
            }
            if !found {
                proof {
                    assert(fa.contains(fa[i as int]));
                    assert(field_keys(a@).contains(fa[i as int]));
                    assert(!fb.contains(fa[i as int]));
                }
                return false;
            }
            i = i + 1;
        }
        proof {
            assert forall|x| field_keys(a@).contains(x) implies field_keys(b@).contains(x) by {
                assert(fa.contains(x));
                let k = choose|k: int| 0 <= k < fa.len() && fa[k] == x;
                assert(fb.contains(fa[k]));
            }
        }
        true
    }

    /// Strict compatibility: the event type must match and the field sets
    /// must match as (name, field type, optional) triples; order is ignored.
    /// Changing `optional` on a field is a conflict.
    pub fn is_compatible_with(&self, other: &EventSchemaDef) -> (result: bool)
        ensures
            result == self.spec_compatible(*other),
    {
        if self.event_type != other.event_type {
            return false;
        }
        let forward = Self::keys_included(&self.fields, &other.fields);
        let backward = Self::keys_included(&other.fields, &self.fields);
        proof {
            if forward && backward {
                assert(field_keys(self.fields@) =~= field_keys(other.fields@));
            }
        }
        forward && backward
    }
}

/// Compatibility is reflexive.
pub proof fn lemma_compatible_reflexive(a: EventSchemaDef)
    ensures
        a.spec_compatible(a),
{
}

/// Compatibility is symmetric.
pub proof fn lemma_compatible_symmetric(a: EventSchemaDef, b: EventSchemaDef)
    ensures
        a.spec_compatible(b) == b.spec_compatible(a),
{
}

/// Compatibility is transitive.
pub proof fn lemma_compatible_transitive(a: EventSchemaDef, b: EventSchemaDef, c: EventSchemaDef)
    requires
        a.spec_compatible(b),
        b.spec_compatible(c),
    ensures
        a.spec_compatible(c),
{
}

/// Reordering the fields of a schema keeps it compatible with the unreordered one.
pub proof fn lemma_compatible_under_permutation(a: EventSchemaDef, b: EventSchemaDef, perm: Seq<int>)
    requires
        a.event_type@ == b.event_type@,
        perm.len() == a.fields@.len(),
        b.fields@.len() == a.fields@.len(),
        forall|i: int| 0 <= i < perm.len() ==> 0 <= #[trigger] perm[i] < a.fields@.len(),
        forall|i: int, j: int| 0 <= i < j < perm.len() ==> perm[i] != perm[j],
        forall|i: int| 0 <= i < perm.len() ==> #[trigger] b.fields@[i] == a.fields@[perm[i]],
    ensures
        a.spec_compatible(b),
{
    let fa = a.fields@.map_values(|f: FieldDef| f.key());
    let fb = b.fields@.map_values(|f: FieldDef| f.key());
    assert forall|x| fb.to_set().contains(x) implies fa.to_set().contains(x) by {
        assert(fb.contains(x));
        let k = choose|k: int| 0 <= k < fb.len() && fb[k] == x;
        assert(fa[perm[k]] == x);
    }
    assert forall|x| fa.to_set().contains(x) implies fb.to_set().contains(x) by {
        assert(fa.contains(x));
        let k = choose|k: int| 0 <= k < fa.len() && fa[k] == x;
        // perm is injective on the index range, so it reaches every index of `a`.
        lemma_injective_onto(perm, k);
        let j = choose|j: int| 0 <= j < perm.len() && #[trigger] perm[j] == k;
        assert(fb[j] == x);
    }
    assert(fa.to_set() =~= fb.to_set());
}

/// An injective map from `0..n` into `0..n` reaches every index.
proof fn lemma_injective_onto(perm: Seq<int>, target: int)
    requires
        forall|i: int| 0 <= i < perm.len() ==> 0 <= #[trigger] perm[i] < perm.len(),
        forall|i: int, j: int| 0 <= i < j < perm.len() ==> perm[i] != perm[j],
        0 <= target < perm.len(),
    ensures
        exists|j: int| 0 <= j < perm.len() && #[trigger] perm[j] == target,
{
    let image = perm.to_set();
    assert(perm.no_duplicates()) by {
        assert forall|i: int, j: int| 0 <= i < perm.len() && 0 <= j < perm.len() && i != j implies perm[i] != perm[j] by {
            if i < j {
            } else {
                assert(perm[j] != perm[i]);
            }
        }
    }
    perm.unique_seq_to_set();
    let range = vstd::set_lib::set_int_range(0, perm.len() as int);
    vstd::set_lib::lemma_int_range(0, perm.len() as int);
    assert(image.subset_of(range)) by {
        assert forall|x: int| image.contains(x) implies range.contains(x) by {
            let k = choose|k: int| 0 <= k < perm.len() && perm[k] == x;
        }
    }
    vstd::set_lib::lemma_subset_equality(image, range);
    assert(range.contains(target));
    assert(image.contains(target));
}

/// Ties a Rust event type to the persisted schema of its payload.
pub trait Event {
    fn event_type() -> &'static str;

    fn schema() -> EventSchemaDef;
}

} // verus!
