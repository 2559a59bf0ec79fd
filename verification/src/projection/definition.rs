//! The description of what a projection computes, and its builders.
use vstd::prelude::*;

use crate::projection::engine::{parse_json_path, parsed_json_path};
use crate::projection::maps::{
    field_entries, handler_entries, handler_map_contains, has_key, insert_field, insert_handler,
    insert_scalar, inserted, new_field_map, new_handler_map, new_scalar_map, scalar_entries,
    scalar_map_get_index, scalar_map_len,
};
use crate::json::{json_as_str, json_is_null};
use crate::query::TagFilter;
use crate::types::EventType;

verus! {

/// An `f64` amount held as its IEEE-754 bits; the library carries it without
/// computing on it.
#[derive(Debug, Clone, Copy, PartialEq, Eq, Structural)]
pub struct F64Bits(pub u64);

/// Copy a field from the event payload at a JSON path: `{ "from": "$.path" }`.
#[derive(Debug, Clone, PartialEq)]
pub struct HandlerFrom {
    pub from: String,
}

/// Set a static literal or null: `{ "value": <literal> }`.
#[derive(Debug, Clone, PartialEq)]
pub struct HandlerValue {
    pub value: serde_json::Value,
}

/// Add N to a numeric field: `{ "increment": N }`.
#[derive(Debug, Clone, PartialEq)]
pub struct HandlerIncrement {
    pub increment: F64Bits,
}

/// Subtract N from a numeric field: `{ "decrement": N }`.
#[derive(Debug, Clone, PartialEq)]
pub struct HandlerDecrement {
    pub decrement: F64Bits,
}

/// Add the value at a path to a numeric field: `{ "increment_by": "$.path" }`.
#[derive(Debug, Clone, PartialEq)]
pub struct HandlerIncrementBy {
    pub increment_by: String,
}

/// Subtract the value at a path from a numeric field: `{ "decrement_by": "$.path" }`.
#[derive(Debug, Clone, PartialEq)]
pub struct HandlerDecrementBy {
    pub decrement_by: String,
}

/// What a scalar field does when one event fires.
#[derive(Debug, Clone, PartialEq)]
pub enum HandlerSpec {
    From(HandlerFrom),
    Value(HandlerValue),
    Increment(HandlerIncrement),
    Decrement(HandlerDecrement),
    IncrementBy(HandlerIncrementBy),
    DecrementBy(HandlerDecrementBy),
}

impl HandlerSpec {
    pub fn from_path(path: &str) -> (result: HandlerSpec)
        ensures
            result matches HandlerSpec::From(h) && h.from@ == path@,
    {
        HandlerSpec::From(HandlerFrom { from: path.to_owned() })
    }

    pub fn value(v: serde_json::Value) -> (result: HandlerSpec)
        ensures
            result == HandlerSpec::Value(HandlerValue { value: v }),
    {
        HandlerSpec::Value(HandlerValue { value: v })
    }

    pub fn increment(n: F64Bits) -> (result: HandlerSpec)
        ensures
            result == HandlerSpec::Increment(HandlerIncrement { increment: n }),
    {
        HandlerSpec::Increment(HandlerIncrement { increment: n })
    }

    pub fn decrement(n: F64Bits) -> (result: HandlerSpec)
        ensures
            result == HandlerSpec::Decrement(HandlerDecrement { decrement: n }),
    {
        HandlerSpec::Decrement(HandlerDecrement { decrement: n })
    }

    pub fn increment_by(path: &str) -> (result: HandlerSpec)
        ensures
            result matches HandlerSpec::IncrementBy(h) && h.increment_by@ == path@,
    {
        HandlerSpec::IncrementBy(HandlerIncrementBy { increment_by: path.to_owned() })
    }

    pub fn decrement_by(path: &str) -> (result: HandlerSpec)
        ensures
            result matches HandlerSpec::DecrementBy(h) && h.decrement_by@ == path@,
    {
        HandlerSpec::DecrementBy(HandlerDecrementBy { decrement_by: path.to_owned() })
    }

    /// The JSON path that the handler reads, if it reads one.
    pub open spec fn spec_path(self) -> Option<Seq<char>> {
        match self {
            HandlerSpec::From(h) => Some(h.from@),
            HandlerSpec::IncrementBy(h) => Some(h.increment_by@),
            HandlerSpec::DecrementBy(h) => Some(h.decrement_by@),
            _ => None,
        }
    }

    /// The JSON path that the handler reads, if it reads one.
    pub fn path_str(&self) -> (result: Option<&str>)
        ensures
            match result {
                Some(p) => self.spec_path() == Some(p@),
                None => self.spec_path() is None,
            },
    {
        match self {
            HandlerSpec::From(h) => Some(h.from.as_str()),
            HandlerSpec::IncrementBy(h) => Some(h.increment_by.as_str()),
            HandlerSpec::DecrementBy(h) => Some(h.decrement_by.as_str()),
            _ => None,
        }
    }

    /// The handler's path, if it has one, is a valid JSON path.
    pub open spec fn has_valid_path(self) -> bool {
        match self.spec_path() {
            None => true,
            Some(p) => parsed_json_path(p) is Some,
        }
    }
}

/// A JSON value as plain values: `null`, a string by its text, or another
/// value as it is.
pub ghost enum JsonValueView {
    Null,
    Text(Seq<char>),
    Other(serde_json::Value),
}

/// A JSON value as plain values, by `is_null` and `as_str`.
pub open spec fn json_value_view(v: serde_json::Value) -> JsonValueView {
    if json_is_null(v) {
        JsonValueView::Null
    } else {
        match json_as_str(v) {
            Some(t) => JsonValueView::Text(t),
            None => JsonValueView::Other(v),
        }
    }
}

/// What a handler holds, as plain values.
pub ghost enum HandlerSpecView {
    From(Seq<char>),
    Value(JsonValueView),
    Increment(F64Bits),
    Decrement(F64Bits),
    IncrementBy(Seq<char>),
    DecrementBy(Seq<char>),
}

impl View for HandlerSpec {
    type V = HandlerSpecView;

    open spec fn view(&self) -> HandlerSpecView {
        match self {
            HandlerSpec::From(h) => HandlerSpecView::From(h.from@),
            HandlerSpec::Value(h) => HandlerSpecView::Value(json_value_view(h.value)),
            HandlerSpec::Increment(h) => HandlerSpecView::Increment(h.increment),
            HandlerSpec::Decrement(h) => HandlerSpecView::Decrement(h.decrement),
            HandlerSpec::IncrementBy(h) => HandlerSpecView::IncrementBy(h.increment_by@),
            HandlerSpec::DecrementBy(h) => HandlerSpecView::DecrementBy(h.decrement_by@),
        }
    }
}

/// A handler entry as plain values.
pub open spec fn handler_entry_view(e: (Seq<char>, HandlerSpec)) -> (Seq<char>, HandlerSpecView) {
    (e.0, e.1@)
}

/// What a scalar field spec holds, as plain values.
pub ghost struct ScalarSpecView {
    pub required: bool,
    pub default: Option<serde_json::Value>,
    pub events: Seq<(Seq<char>, HandlerSpecView)>,
}

/// The handler entries of a map, as plain values.
pub open spec fn handler_entries_view(m: indexmap::IndexMap<String, HandlerSpec>) -> Seq<(Seq<char>, HandlerSpecView)> {
    handler_entries(m).map_values(|e: (Seq<char>, HandlerSpec)| handler_entry_view(e))
}

/// A scalar entry as plain values.
pub open spec fn scalar_entry_view(e: (Seq<char>, ScalarFieldSpec)) -> (Seq<char>, ScalarSpecView) {
    (e.0, e.1@)
}

/// What a field spec holds, as plain values.
pub ghost enum FieldSpecView {
    Scalar(ScalarSpecView),
    Object { field_type: Seq<char>, cleared_by: Seq<Seq<char>>, fields: Seq<(Seq<char>, ScalarSpecView)> },
}

/// A field entry as plain values.
pub open spec fn field_entry_view(e: (Seq<char>, FieldSpec)) -> (Seq<char>, FieldSpecView) {
    (e.0, e.1@)
}

/// The scalar entries of a map, as plain values.
pub open spec fn scalar_entries_view(m: indexmap::IndexMap<String, ScalarFieldSpec>) -> Seq<(Seq<char>, ScalarSpecView)> {
    scalar_entries(m).map_values(|e: (Seq<char>, ScalarFieldSpec)| scalar_entry_view(e))
}

/// The field entries of a map, as plain values.
pub open spec fn field_entries_view(m: indexmap::IndexMap<String, FieldSpec>) -> Seq<(Seq<char>, FieldSpecView)> {
    field_entries(m).map_values(|e: (Seq<char>, FieldSpec)| field_entry_view(e))
}

/// Event types as plain values.
pub open spec fn event_type_views(v: Seq<EventType>) -> Seq<Seq<char>> {
    v.map_values(|e: EventType| e@)
}

/// A scalar field of a projection: whether it is required, its value before
/// any event, and the handler of each event type, in insertion order.
#[derive(Debug, Clone, PartialEq)]
pub struct ScalarFieldSpec {
    pub required: bool,
    pub default: Option<serde_json::Value>,
    pub events: indexmap::IndexMap<EventType, HandlerSpec>,
}

impl View for ScalarFieldSpec {
    type V = ScalarSpecView;

    open spec fn view(&self) -> ScalarSpecView {
        ScalarSpecView { required: self.required, default: self.default, events: handler_entries_view(self.events) }
    }
}

/// A nested object field: the event types that clear the whole object, and
/// its scalar sub-fields in insertion order. `field_type` is `"object"`.
#[derive(Debug, Clone, PartialEq)]
pub struct ObjectFieldSpec {
    pub field_type: String,
    pub cleared_by: Vec<EventType>,
    pub fields: indexmap::IndexMap<String, ScalarFieldSpec>,
}

/// A top-level field: a nested object or a scalar.
#[derive(Debug, Clone, PartialEq)]
pub enum FieldSpec {
    Object(ObjectFieldSpec),
    Scalar(ScalarFieldSpec),
}

impl View for FieldSpec {
    type V = FieldSpecView;

    open spec fn view(&self) -> FieldSpecView {
        match self {
            FieldSpec::Scalar(s) => FieldSpecView::Scalar(s@),
            FieldSpec::Object(o) => FieldSpecView::Object {
                field_type: o.field_type@,
                cleared_by: event_type_views(o.cleared_by@),
                fields: scalar_entries_view(o.fields),
            },
        }
    }
}

/// What a projection computes: its name, the tag filter of the events it
/// reads, and its top-level fields in insertion order.
#[derive(Debug, Clone, PartialEq)]
pub struct ProjectionDefinition {
    pub name: String,
    pub query: TagFilter,
    pub fields: indexmap::IndexMap<String, FieldSpec>,
}

impl ProjectionDefinition {
    pub fn builder(name: &str, query: TagFilter) -> (result: ProjectionDefinitionBuilder)
        ensures
            result.name@ == name@,
            result.query == query,
            field_entries(result.fields).len() == 0,
    {
        ProjectionDefinitionBuilder::new(name.to_owned(), query)
    }
}

/// Builds a `ProjectionDefinition` field by field.
pub struct ProjectionDefinitionBuilder {
    pub name: String,
    pub query: TagFilter,
    pub fields: indexmap::IndexMap<String, FieldSpec>,
}

impl ProjectionDefinitionBuilder {
    pub fn new(name: String, query: TagFilter) -> (result: ProjectionDefinitionBuilder)
        ensures
            result.name == name,
            result.query == query,
            field_entries(result.fields).len() == 0,
    {
        ProjectionDefinitionBuilder { name, query, fields: new_field_map() }
    }

    /// Adds (or replaces, keeping its place) a scalar field.
    pub fn scalar(self, name: &str, spec: ScalarFieldSpec) -> (result: ProjectionDefinitionBuilder)
        ensures
            result.name == self.name,
            result.query == self.query,
            field_entries(result.fields) == inserted(field_entries(self.fields), name@, FieldSpec::Scalar(spec)),
    {
        let mut b = self;
        insert_field(&mut b.fields, name.to_owned(), FieldSpec::Scalar(spec));
        b
    }

    /// Adds (or replaces, keeping its place) a nested object field.
    pub fn object(self, name: &str, spec: ObjectFieldSpec) -> (result: ProjectionDefinitionBuilder)
        ensures
            result.name == self.name,
            result.query == self.query,
            field_entries(result.fields) == inserted(field_entries(self.fields), name@, FieldSpec::Object(spec)),
    {
        let mut b = self;
        insert_field(&mut b.fields, name.to_owned(), FieldSpec::Object(spec));
        b
    }

    pub fn build(self) -> (result: ProjectionDefinition)
        ensures
            result.name == self.name,
            result.query == self.query,
            result.fields == self.fields,
    {
        ProjectionDefinition { name: self.name, query: self.query, fields: self.fields }
    }
}

/// Builds a `ScalarFieldSpec`; optional (not required) and without default
/// until told otherwise.
pub struct ScalarFieldSpecBuilder {
    pub required: bool,
    pub default: Option<serde_json::Value>,
    pub events: indexmap::IndexMap<EventType, HandlerSpec>,
}

impl ScalarFieldSpecBuilder {
    pub fn new() -> (result: ScalarFieldSpecBuilder)
        ensures
            !result.required,
            result.default is None,
            handler_entries(result.events).len() == 0,
    {
        ScalarFieldSpecBuilder { required: false, default: None, events: new_handler_map() }
    }

    pub fn required(self) -> (result: ScalarFieldSpecBuilder)
        ensures
            result.required,
            result.default == self.default,
            result.events == self.events,
    {
        let mut b = self;
        b.required = true;
        b
    }

    pub fn default_value(self, v: serde_json::Value) -> (result: ScalarFieldSpecBuilder)
        ensures
            result.required == self.required,
            result.default == Some(v),
            result.events == self.events,
    {
        let mut b = self;
        b.default = Some(v);
        b
    }

    /// Registers `handler` for `event_type` (replacing an earlier handler of
    /// that type in its place). A handler's JSON path must be valid: the
    /// path is parsed here.
    pub fn on(self, event_type: &str, handler: HandlerSpec) -> (result: ScalarFieldSpecBuilder)
        requires
            handler.has_valid_path(),
        ensures
            result.required == self.required,
            result.default == self.default,
            handler_entries(result.events) == inserted(handler_entries(self.events), event_type@, handler),
    {
        if let Some(path) = handler.path_str() {
            let parsed = parse_json_path(path);
            assert(parsed is Some);
        }
        let mut b = self;
        insert_handler(&mut b.events, event_type.to_owned(), handler);
        b
    }

    /// Like `on`, but a handler whose JSON path is not valid is refused:
    /// the builder comes back unchanged in `Err` together with the handler.
    pub fn try_on(self, event_type: &str, handler: HandlerSpec) -> (result: Result<ScalarFieldSpecBuilder, (ScalarFieldSpecBuilder, HandlerSpec)>)
        ensures
            handler.has_valid_path() <==> result is Ok,
            match result {
                Ok(b) => b.required == self.required && b.default == self.default
                    && handler_entries(b.events) == inserted(handler_entries(self.events), event_type@, handler),
                Err((b, h)) => b == self && h == handler,
            },
    {
        let valid = match handler.path_str() {
            None => true,
            Some(path) => parse_json_path(path).is_some(),
        };
        if valid {
            Ok(self.on(event_type, handler))
        } else {
            Err((self, handler))
        }
    }

    pub fn build(self) -> (result: ScalarFieldSpec)
        ensures
            result == (ScalarFieldSpec { required: self.required, default: self.default, events: self.events }),
    {
        ScalarFieldSpec { required: self.required, default: self.default, events: self.events }
    }
}

impl Default for ScalarFieldSpecBuilder {
    fn default() -> (result: ScalarFieldSpecBuilder)
        ensures
            !result.required,
            result.default is None,
            handler_entries(result.events).len() == 0,
    {
        Self::new()
    }
}

/// An event type registered both to clear an object and in a sub-field's
/// handlers: the sub-field update would be silently dropped.
#[derive(Debug, Clone, PartialEq, Eq)]
pub struct ClearedByConflict {
    pub event_type: EventType,
    pub sub_field: String,
}

/// Builds an `ObjectFieldSpec`.
pub struct ObjectFieldSpecBuilder {
    pub cleared_by: Vec<EventType>,
    pub fields: indexmap::IndexMap<String, ScalarFieldSpec>,
}

/// The event type at `c` of `cleared_by` is registered in the handlers of the
/// sub-field at `f`.
pub open spec fn registered_in_both(cleared_by: Seq<EventType>, fields: Seq<(Seq<char>, ScalarFieldSpec)>, c: int, f: int) -> bool {
    &&& 0 <= c < cleared_by.len()
    &&& 0 <= f < fields.len()
    &&& has_key(handler_entries(fields[f].1.events), cleared_by[c]@)
}

impl ObjectFieldSpecBuilder {
    pub fn new() -> (result: ObjectFieldSpecBuilder)
        ensures
            result.cleared_by@.len() == 0,
            scalar_entries(result.fields).len() == 0,
    {
        ObjectFieldSpecBuilder { cleared_by: Vec::new(), fields: new_scalar_map() }
    }

    /// Adds an event type that clears the whole object.
    pub fn cleared_by(self, event_type: &str) -> (result: ObjectFieldSpecBuilder)
        ensures
            result.cleared_by@.len() == self.cleared_by@.len() + 1,
            result.cleared_by@.subrange(0, self.cleared_by@.len() as int) == self.cleared_by@,
            result.cleared_by@.last()@ == event_type@,
            result.fields == self.fields,
    {
        let mut b = self;
        b.cleared_by.push(event_type.to_owned());
        assert(b.cleared_by@.subrange(0, self.cleared_by@.len() as int) =~= self.cleared_by@);
        b
    }

    /// Adds (or replaces, keeping its place) a sub-field.
    pub fn field(self, name: &str, spec: ScalarFieldSpec) -> (result: ObjectFieldSpecBuilder)
        ensures
            result.cleared_by == self.cleared_by,
            scalar_entries(result.fields) == inserted(scalar_entries(self.fields), name@, spec),
    {
        let mut b = self;
        insert_scalar(&mut b.fields, name.to_owned(), spec);
        b
    }

    /// The first clearing event type (in `cleared_by` order) that a
    /// sub-field (in field order) also handles.
    pub fn find_conflict(&self) -> (result: Option<ClearedByConflict>)
        ensures
            match result {
                None => forall|c: int, f: int| !#[trigger] registered_in_both(self.cleared_by@, scalar_entries(self.fields), c, f),
                Some(conflict) => exists|c: int, f: int| {
                    &&& #[trigger] registered_in_both(self.cleared_by@, scalar_entries(self.fields), c, f)
                    &&& conflict.event_type@ == self.cleared_by@[c]@
                    &&& conflict.sub_field@ == scalar_entries(self.fields)[f].0
                    &&& forall|c2: int, f2: int| (c2 < c || (c2 == c && f2 < f))
                        ==> !#[trigger] registered_in_both(self.cleared_by@, scalar_entries(self.fields), c2, f2)
                },
            },
    {
        let ghost fields = scalar_entries(self.fields);
        let n = scalar_map_len(&self.fields);
        let mut c: usize = 0;
        while c < self.cleared_by.len()
            invariant
                c <= self.cleared_by@.len(),
                n == fields.len(),
                fields == scalar_entries(self.fields),
                forall|c2: int, f2: int| c2 < c ==> !#[trigger] registered_in_both(self.cleared_by@, fields, c2, f2),
            decreases self.cleared_by@.len() - c,
        {
            let evt = &self.cleared_by[c];
            let mut f: usize = 0;
            while f < n
                invariant
                    c < self.cleared_by@.len(),
                    f <= n,
                    n == fields.len(),
                    fields == scalar_entries(self.fields),
                    evt == self.cleared_by@[c as int],
                    forall|c2: int, f2: int| c2 < c ==> !#[trigger] registered_in_both(self.cleared_by@, fields, c2, f2),
                    forall|f2: int| f2 < f ==> !#[trigger] registered_in_both(self.cleared_by@, fields, c as int, f2),
                decreases n - f,
            {
                match scalar_map_get_index(&self.fields, f) {
                    Some((sub_name, scalar)) => {
                        if handler_map_contains(&scalar.events, evt) {
                            proof {
                                assert(registered_in_both(self.cleared_by@, fields, c as int, f as int));
                            }
                            return Some(ClearedByConflict { event_type: evt.clone(), sub_field: sub_name.clone() });
                        }
                    },
                    None => {},
                }
                f = f + 1;
            }
            c = c + 1;
        }
        None
    }

    /// The object spec. An event type that both clears the object and is
    /// handled by a sub-field is ambiguous and must not occur.
    pub fn build(self) -> (result: ObjectFieldSpec)
        requires
            forall|c: int, f: int| !#[trigger] registered_in_both(self.cleared_by@, scalar_entries(self.fields), c, f),
        ensures
            result.field_type@ == "object"@,
            result.cleared_by == self.cleared_by,
            result.fields == self.fields,
    {
        ObjectFieldSpec { field_type: String::from_str("object"), cleared_by: self.cleared_by, fields: self.fields }
    }

    /// Like `build`, but an ambiguous registration is reported instead: the
    /// first clearing event type (in `cleared_by` order) that a sub-field
    /// also handles, with the first such sub-field (in field order).
    pub fn try_build(self) -> (result: Result<ObjectFieldSpec, ClearedByConflict>)
        ensures
            result is Ok <==> forall|c: int, f: int| !#[trigger] registered_in_both(self.cleared_by@, scalar_entries(self.fields), c, f),
            result matches Ok(spec) ==> spec.field_type@ == "object"@ && spec.cleared_by == self.cleared_by && spec.fields == self.fields,
            result matches Err(conflict) ==> exists|c: int, f: int| {
                &&& #[trigger] registered_in_both(self.cleared_by@, scalar_entries(self.fields), c, f)
                &&& conflict.event_type@ == self.cleared_by@[c]@
                &&& conflict.sub_field@ == scalar_entries(self.fields)[f].0
                &&& forall|c2: int, f2: int| (c2 < c || (c2 == c && f2 < f))
                    ==> !#[trigger] registered_in_both(self.cleared_by@, scalar_entries(self.fields), c2, f2)
            },
    {
        match self.find_conflict() {
            Some(conflict) => Err(conflict),
            None => Ok(self.build()),
        }
    }
}

impl Default for ObjectFieldSpecBuilder {
    fn default() -> (result: ObjectFieldSpecBuilder)
        ensures
            result.cleared_by@.len() == 0,
            scalar_entries(result.fields).len() == 0,
    {
        Self::new()
    }
}

} // verus!
