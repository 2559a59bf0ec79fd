//! What a parsed projection generates: the layout of the read-model structs
//! and the projection definition that the read model reports.
use vstd::prelude::*;

use crate::json::{make_json_null, make_json_string};
use crate::projection::definition::{
    event_type_views, field_entries_view, field_entry_view, handler_entries_view, handler_entry_view,
    registered_in_both, scalar_entries_view, scalar_entry_view, FieldSpec, FieldSpecView, HandlerSpec,
    HandlerSpecView, JsonValueView, ObjectFieldSpecBuilder, ProjectionDefinition, ScalarFieldSpec,
    ScalarFieldSpecBuilder, ScalarSpecView,
};
use crate::projection::engine::{parse_json_path, parsed_json_path};
use crate::projection::language::{
    handler_views, scalar_field_views, FieldDecl, FieldView, HandlerDecl, HandlerView, OperationDecl,
    OperationView, ProjectionInput, ProjectionView, QuerySpec, QueryView, ScalarFieldDecl,
    ScalarFieldView,
};
use crate::projection::maps::{
    field_entries, handler_entries, has_key, inserted, key_index, lemma_has_key_map, lemma_inserted_facts,
    lemma_inserted_map, scalar_entries,
};
use crate::query::TagFilter;
use crate::text::{char_to_uppercase, uppercase_of};
use crate::types::Tag;

verus! {

/// `s` in PascalCase: `_` separates words and is dropped, and the first
/// character of each word is upper-cased.
pub open spec fn pascal_case(s: Seq<char>) -> Seq<char> {
    pascal_from(s, true)
}

/// PascalCase of `s` when the previous character ended a word (`at_start`).
pub open spec fn pascal_from(s: Seq<char>, at_start: bool) -> Seq<char>
    decreases s.len(),
{
    if s.len() == 0 {
        Seq::empty()
    } else if s[0] == '_' {
        pascal_from(s.drop_first(), true)
    } else if at_start {
        uppercase_of(s[0]) + pascal_from(s.drop_first(), false)
    } else {
        seq![s[0]] + pascal_from(s.drop_first(), false)
    }
}

/// Converts a snake_case name to PascalCase (`postal_code` to `PostalCode`).
pub fn to_pascal_case(s: &str) -> (result: String)
    ensures
        result@ == pascal_case(s@),
{
    let n = s.unicode_len();
    let mut out = String::new();
    let mut at_start = true;
    let mut i: usize = 0;
    proof {
        assert(s@.skip(0) =~= s@);
        assert(out@ + pascal_from(s@, true) =~= pascal_from(s@, true));
    }
    while i < n
        invariant
            n == s@.len(),
            i <= n,
            out@ + pascal_from(s@.skip(i as int), at_start) == pascal_case(s@),
        decreases n - i,
    {
        let c = s.get_char(i);
        proof {
            assert(s@.skip(i as int)[0] == c);
            assert(s@.skip(i as int).drop_first() =~= s@.skip(i + 1));
        }
        if c == '_' {
            at_start = true;
        } else if at_start {
            let up = char_to_uppercase(c);
            proof {
                assert(out@ + up@ + pascal_from(s@.skip(i + 1), false) =~= out@ + (up@ + pascal_from(s@.skip(i + 1), false)));
            }
            out.append(up.as_str());
            at_start = false;
        } else {
            proof {
                assert(out@.push(c) + pascal_from(s@.skip(i + 1), false) =~= out@ + (seq![c] + pascal_from(s@.skip(i + 1), false)));
            }
            out.push(c);
        }
        i = i + 1;
    }
    proof {
        assert(out@ + Seq::<char>::empty() =~= out@);
    }
    out
}

/// A field is numeric when one of its handlers adds or subtracts.
pub open spec fn numeric_handlers(handlers: Seq<HandlerView>) -> bool {
    exists|i: int| 0 <= i < handlers.len()
        && ((#[trigger] handlers[i]).operation is IncrementBy || handlers[i].operation is DecrementBy)
}

/// Whether a field is numeric: some handler is `|+` or `|-`.
pub fn is_numeric_field(handlers: &[HandlerDecl]) -> (result: bool)
    ensures
        result == numeric_handlers(handler_views(handlers@)),
{
    let ghost hv = handler_views(handlers@);
    let mut i: usize = 0;
    while i < handlers.len()
        invariant
            i <= handlers@.len(),
            hv == handler_views(handlers@),
            forall|k: int| 0 <= k < i ==> !((#[trigger] hv[k]).operation is IncrementBy || hv[k].operation is DecrementBy),
        decreases handlers@.len() - i,
    {
        proof {
            assert(hv[i as int] == handlers@[i as int]@);
        }
        match &handlers[i].operation {
            OperationDecl::IncrementBy(_) | OperationDecl::DecrementBy(_) => {
                return true;
            },
            _ => {},
        }
        i = i + 1;
    }
    false
}

/// The Rust type of a generated struct field.
#[derive(Debug, Clone, PartialEq, Eq)]
pub enum RustFieldType {
    /// `String`
    Text,
    /// `f64`
    Number,
    /// `Option<String>`
    OptionalText,
    /// `Option<f64>`
    OptionalNumber,
    /// A companion struct, by name.
    Nested(String),
    /// `Option` of a companion struct, by name.
    OptionalNested(String),
}

/// One field of a generated struct.
#[derive(Debug, Clone, PartialEq, Eq)]
pub struct GeneratedField {
    pub name: String,
    pub field_type: RustFieldType,
}

/// A generated struct: its name and fields in order.
#[derive(Debug, Clone, PartialEq, Eq)]
pub struct GeneratedStruct {
    pub name: String,
    pub fields: Vec<GeneratedField>,
}

/// The structs that a projection generates: one companion per object
/// field (in field order), then the read model itself.
#[derive(Debug, Clone, PartialEq, Eq)]
pub struct GeneratedLayout {
    pub companions: Vec<GeneratedStruct>,
    pub main: GeneratedStruct,
}

pub ghost enum RustTypeView {
    Text,
    Number,
    OptionalText,
    OptionalNumber,
    Nested(Seq<char>),
    OptionalNested(Seq<char>),
}

pub ghost struct StructView {
    pub name: Seq<char>,
    pub fields: Seq<(Seq<char>, RustTypeView)>,
}

pub ghost struct LayoutView {
    pub companions: Seq<StructView>,
    pub main: StructView,
}

impl View for RustFieldType {
    type V = RustTypeView;

    open spec fn view(&self) -> RustTypeView {
        match self {
            RustFieldType::Text => RustTypeView::Text,
            RustFieldType::Number => RustTypeView::Number,
            RustFieldType::OptionalText => RustTypeView::OptionalText,
            RustFieldType::OptionalNumber => RustTypeView::OptionalNumber,
            RustFieldType::Nested(n) => RustTypeView::Nested(n@),
            RustFieldType::OptionalNested(n) => RustTypeView::OptionalNested(n@),
        }
    }
}

impl View for GeneratedField {
    type V = (Seq<char>, RustTypeView);

    open spec fn view(&self) -> (Seq<char>, RustTypeView) {
        (self.name@, self.field_type@)
    }
}

impl View for GeneratedStruct {
    type V = StructView;

    open spec fn view(&self) -> StructView {
        StructView { name: self.name@, fields: generated_field_views(self.fields@) }
    }
}

impl View for GeneratedLayout {
    type V = LayoutView;

    open spec fn view(&self) -> LayoutView {
        LayoutView { companions: struct_views(self.companions@), main: self.main@ }
    }
}

/// The fields as plain values.
pub open spec fn generated_field_views(fs: Seq<GeneratedField>) -> Seq<(Seq<char>, RustTypeView)> {
    fs.map_values(|f: GeneratedField| f@)
}

/// The structs as plain values.
pub open spec fn struct_views(ss: Seq<GeneratedStruct>) -> Seq<StructView> {
    ss.map_values(|s: GeneratedStruct| s@)
}

/// The fields of a companion struct.
pub open spec fn companion_fields_of(sub_fields: Seq<ScalarFieldView>) -> Seq<(Seq<char>, RustTypeView)> {
    sub_fields.map_values(|f: ScalarFieldView| companion_field(f))
}

/// The fields of the read model struct.
pub open spec fn main_fields_of(projection: Seq<char>, fields: Seq<FieldView>) -> Seq<(Seq<char>, RustTypeView)> {
    fields.map_values(|f: FieldView| main_field(projection, f))
}

/// The type of a scalar field: `f64` when numeric, `String` otherwise, in an
/// `Option` when optional.
pub open spec fn scalar_type(numeric: bool, optional: bool) -> RustTypeView {
    if numeric {
        if optional { RustTypeView::OptionalNumber } else { RustTypeView::Number }
    } else {
        if optional { RustTypeView::OptionalText } else { RustTypeView::Text }
    }
}

/// The name of the companion struct of object field `field` in projection `projection`.
pub open spec fn companion_name(projection: Seq<char>, field: Seq<char>) -> Seq<char> {
    projection + pascal_case(field)
}

/// The read model's field for a declaration.
pub open spec fn main_field(projection: Seq<char>, f: FieldView) -> (Seq<char>, RustTypeView) {
    match f {
        FieldView::Scalar { name, optional, handlers } => (name, scalar_type(numeric_handlers(handlers), optional)),
        FieldView::Object { name, optional, .. } => (name, if optional {
            RustTypeView::OptionalNested(companion_name(projection, name))
        } else {
            RustTypeView::Nested(companion_name(projection, name))
        }),
    }
}

/// A companion struct's field: always optional.
pub open spec fn companion_field(f: ScalarFieldView) -> (Seq<char>, RustTypeView) {
    (f.name, scalar_type(numeric_handlers(f.handlers), true))
}

/// The companion structs of the object fields, in field order.
pub open spec fn companions_of(projection: Seq<char>, fields: Seq<FieldView>) -> Seq<StructView>
    decreases fields.len(),
{
    if fields.len() == 0 {
        Seq::empty()
    } else {
        let before = companions_of(projection, fields.drop_last());
        match fields.last() {
            FieldView::Object { name, sub_fields, .. } => before.push(StructView {
                name: companion_name(projection, name),
                fields: companion_fields_of(sub_fields),
            }),
            _ => before,
        }
    }
}

/// The structs that a projection generates.
pub open spec fn layout_of(p: ProjectionView) -> LayoutView {
    LayoutView {
        companions: companions_of(p.name, p.fields),
        main: StructView { name: p.name, fields: main_fields_of(p.name, p.fields) },
    }
}

fn scalar_type_exec(numeric: bool, optional: bool) -> (result: RustFieldType)
    ensures
        result@ == scalar_type(numeric, optional),
{
    if numeric {
        if optional { RustFieldType::OptionalNumber } else { RustFieldType::Number }
    } else {
        if optional { RustFieldType::OptionalText } else { RustFieldType::Text }
    }
}

fn companion_fields(sub_fields: &Vec<ScalarFieldDecl>) -> (result: Vec<GeneratedField>)
    ensures
        generated_field_views(result@)
            == companion_fields_of(scalar_field_views(sub_fields@)),
{
    let mut out: Vec<GeneratedField> = Vec::new();
    let mut i: usize = 0;
    while i < sub_fields.len()
        invariant
            i <= sub_fields@.len(),
            out@.len() == i,
            generated_field_views(out@)
                == companion_fields_of(scalar_field_views(sub_fields@)).take(i as int),
        decreases sub_fields@.len() - i,
    {
        let sub = &sub_fields[i];
        let numeric = is_numeric_field(sub.handlers.as_slice());
        let ty = scalar_type_exec(numeric, true);
        let name = sub.name.clone();
        let generated = GeneratedField { name, field_type: ty };
        proof {
            assert(sub@ == scalar_field_views(sub_fields@)[i as int]);
            assert(generated@ == companion_field(sub@));
        }
        out.push(generated);
        proof {
            let all = companion_fields_of(scalar_field_views(sub_fields@));
            assert(all[i as int] == companion_field(sub@));
            assert(generated_field_views(out@) =~= all.take(i + 1));
        }
        i = i + 1;
    }
    proof {
        let all = companion_fields_of(scalar_field_views(sub_fields@));
        assert(all.take(sub_fields@.len() as int) =~= all);
    }
    out
}

/// The structs that a parsed projection generates: a companion struct
/// `{Name}{FieldPascal}` for each object field, whose fields are all
/// optional, and the read model struct `{Name}` with one field per
/// declaration. A field with `|+` or `|-` handlers is numeric (`f64`),
/// otherwise text (`String`); optional fields and objects are `Option`s.
pub fn generated_layout(input: &ProjectionInput) -> (result: GeneratedLayout)
    ensures
        result@ == layout_of(input@),
{
    let ghost pv = input@;
    let mut companions: Vec<GeneratedStruct> = Vec::new();
    let mut fields: Vec<GeneratedField> = Vec::new();
    let mut i: usize = 0;
    while i < input.fields.len()
        invariant
            i <= input.fields@.len(),
            pv == input@,
            fields@.len() == i,
            struct_views(companions@) == companions_of(pv.name, pv.fields.take(i as int)),
            generated_field_views(fields@) == main_fields_of(pv.name, pv.fields).take(i as int),
        decreases input.fields@.len() - i,
    {
        let field = &input.fields[i];
        proof {
            assert(pv.fields[i as int] == field@);
            assert(pv.fields.take(i + 1).drop_last() =~= pv.fields.take(i as int));
            assert(pv.fields.take(i + 1).last() == field@);
        }
        let ghost before_c = struct_views(companions@);
        let ghost before_f = generated_field_views(fields@);
        match field {
            FieldDecl::Scalar { name, optional, handlers } => {
                let numeric = is_numeric_field(handlers.as_slice());
                let ty = scalar_type_exec(numeric, *optional);
                fields.push(GeneratedField { name: name.clone(), field_type: ty });
            },
            FieldDecl::Object { name, optional, sub_fields, .. } => {
                let mut companion = input.name.clone();
                let pascal = to_pascal_case(name.as_str());
                companion.append(pascal.as_str());
                let struct_fields = companion_fields(sub_fields);
                let ty = if *optional { RustFieldType::OptionalNested(companion.clone()) } else { RustFieldType::Nested(companion.clone()) };
                companions.push(GeneratedStruct { name: companion, fields: struct_fields });
                fields.push(GeneratedField { name: name.clone(), field_type: ty });
            },
        }
        proof {
            assert(fields@[i as int]@ == main_field(pv.name, field@));
            assert(struct_views(companions@) =~= companions_of(pv.name, pv.fields.take(i + 1)));
            assert(generated_field_views(fields@) =~= main_fields_of(pv.name, pv.fields).take(i + 1));
        }
        i = i + 1;
    }
    proof {
        assert(pv.fields.take(input.fields@.len() as int) =~= pv.fields);
        assert(main_fields_of(pv.name, pv.fields).take(input.fields@.len() as int)
            =~= main_fields_of(pv.name, pv.fields));
    }
    GeneratedLayout { companions, main: GeneratedStruct { name: input.name.clone(), fields } }
}


/// The handler that a declared operation registers: a path copy, `null`, a
/// string literal, or an addition or subtraction of the value at a path.
pub open spec fn handler_spec_of(op: OperationView) -> HandlerSpecView {
    match op {
        OperationView::FromPath(p) => HandlerSpecView::From(p),
        OperationView::ValueNull => HandlerSpecView::Value(JsonValueView::Null),
        OperationView::ValueString(s) => HandlerSpecView::Value(JsonValueView::Text(s)),
        OperationView::IncrementBy(p) => HandlerSpecView::IncrementBy(p),
        OperationView::DecrementBy(p) => HandlerSpecView::DecrementBy(p),
    }
}

/// The handler entries after registering the handlers in order (a later
/// handler of an event type replaces an earlier one in its place).
pub open spec fn handler_entries_of(hs: Seq<HandlerView>) -> Seq<(Seq<char>, HandlerSpecView)>
    decreases hs.len(),
{
    if hs.len() == 0 {
        Seq::empty()
    } else {
        inserted(handler_entries_of(hs.drop_last()), hs.last().event_type, handler_spec_of(hs.last().operation))
    }
}

/// The scalar field spec of declared handlers: no default, required or not.
pub open spec fn scalar_spec_of(required: bool, hs: Seq<HandlerView>) -> ScalarSpecView {
    ScalarSpecView { required, default: None, events: handler_entries_of(hs) }
}

/// The sub-field entries of an object after adding its sub-fields in order;
/// sub-fields are never required.
pub open spec fn object_entries_of(subs: Seq<ScalarFieldView>) -> Seq<(Seq<char>, ScalarSpecView)>
    decreases subs.len(),
{
    if subs.len() == 0 {
        Seq::empty()
    } else {
        inserted(object_entries_of(subs.drop_last()), subs.last().name, scalar_spec_of(false, subs.last().handlers))
    }
}

/// The clearing event types of an object: the declared one, if any.
pub open spec fn cleared_by_of(e: Option<Seq<char>>) -> Seq<Seq<char>> {
    match e {
        Some(e) => seq![e],
        None => Seq::empty(),
    }
}

/// The name of a field declaration.
pub open spec fn declared_name(f: FieldView) -> Seq<char> {
    match f {
        FieldView::Scalar { name, .. } => name,
        FieldView::Object { name, .. } => name,
    }
}

/// The field spec of a declaration: a scalar is required unless marked
/// optional; an object holds its clearing event and its sub-fields.
pub open spec fn field_spec_of(f: FieldView) -> FieldSpecView {
    match f {
        FieldView::Scalar { optional, handlers, .. } => FieldSpecView::Scalar(scalar_spec_of(!optional, handlers)),
        FieldView::Object { sub_fields, cleared_by_event, .. } => FieldSpecView::Object {
            field_type: "object"@,
            cleared_by: cleared_by_of(cleared_by_event),
            fields: object_entries_of(sub_fields),
        },
    }
}

/// The field entries of a projection after adding its fields in order.
pub open spec fn definition_entries_of(fs: Seq<FieldView>) -> Seq<(Seq<char>, FieldSpecView)>
    decreases fs.len(),
{
    if fs.len() == 0 {
        Seq::empty()
    } else {
        inserted(definition_entries_of(fs.drop_last()), declared_name(fs.last()), field_spec_of(fs.last()))
    }
}

/// The tag filter `f` is the one that the `query` line declares.
pub open spec fn query_filter_is(q: QueryView, f: TagFilter) -> bool {
    match (q, f) {
        (QueryView::StartsWith(s), TagFilter::StartsWith(t)) => t@ == s,
        (QueryView::EndsWith(s), TagFilter::EndsWith(t)) => t@ == s,
        (QueryView::Equals(s), TagFilter::Equals(t)) => t@ == s,
        _ => false,
    }
}

/// The JSON path that an operation reads, if any.
pub open spec fn operation_path(op: OperationView) -> Option<Seq<char>> {
    match op {
        OperationView::FromPath(p) => Some(p),
        OperationView::IncrementBy(p) => Some(p),
        OperationView::DecrementBy(p) => Some(p),
        _ => None,
    }
}

/// Every path that the handlers read is a valid JSON path.
pub open spec fn valid_handler_paths(hs: Seq<HandlerView>) -> bool {
    forall|i: int| 0 <= i < hs.len() ==> match operation_path(#[trigger] hs[i].operation) {
        Some(p) => parsed_json_path(p) is Some,
        None => true,
    }
}

/// No sub-field that the object ends up with handles its clearing event.
pub open spec fn clears_without_conflict(subs: Seq<ScalarFieldView>, cleared: Option<Seq<char>>) -> bool {
    match cleared {
        None => true,
        Some(e) => forall|j: int| 0 <= j < object_entries_of(subs).len()
            ==> !has_key((#[trigger] object_entries_of(subs)[j]).1.events, e),
    }
}

/// The definition of a declared field can be built.
pub open spec fn field_definable(f: FieldView) -> bool {
    match f {
        FieldView::Scalar { handlers, .. } => valid_handler_paths(handlers),
        FieldView::Object { sub_fields, cleared_by_event, .. } => {
            &&& forall|j: int| 0 <= j < sub_fields.len() ==> valid_handler_paths(#[trigger] sub_fields[j].handlers)
            &&& clears_without_conflict(sub_fields, cleared_by_event)
        },
    }
}

/// The tag of an `equals` query is not empty.
pub open spec fn query_definable(q: QueryView) -> bool {
    match q {
        QueryView::Equals(s) => s.len() > 0,
        _ => true,
    }
}

/// The definition of a parsed projection can be built: the query tag is
/// valid, every handler path is a valid JSON path, and no object is cleared
/// by an event that one of its sub-fields handles.
pub open spec fn definable(p: ProjectionView) -> bool {
    &&& query_definable(p.query)
    &&& forall|i: int| 0 <= i < p.fields.len() ==> field_definable(#[trigger] p.fields[i])
}

fn handler_spec(op: &OperationDecl) -> (result: HandlerSpec)
    ensures
        result@ == handler_spec_of(op@),
{
    match op {
        OperationDecl::FromPath(p) => HandlerSpec::from_path(p.as_str()),
        OperationDecl::ValueNull => HandlerSpec::value(make_json_null()),
        OperationDecl::ValueString(s) => HandlerSpec::value(make_json_string(s.clone())),
        OperationDecl::IncrementBy(p) => HandlerSpec::increment_by(p.as_str()),
        OperationDecl::DecrementBy(p) => HandlerSpec::decrement_by(p.as_str()),
    }
}

fn scalar_spec(required: bool, handlers: &Vec<HandlerDecl>) -> (result: ScalarFieldSpec)
    requires
        valid_handler_paths(handler_views(handlers@)),
    ensures
        result@ == scalar_spec_of(required, handler_views(handlers@)),
{
    let ghost hv = handler_views(handlers@);
    let mut b = ScalarFieldSpecBuilder::new();
    if required {
        b = b.required();
    }
    proof {
        assert(handler_entries_view(b.events) =~= Seq::<(Seq<char>, HandlerSpecView)>::empty());
        assert(hv.take(0) =~= Seq::<HandlerView>::empty());
    }
    let mut i: usize = 0;
    while i < handlers.len()
        invariant
            i <= handlers@.len(),
            hv == handler_views(handlers@),
            valid_handler_paths(hv),
            b.required == required,
            b.default is None,
            handler_entries_view(b.events) == handler_entries_of(hv.take(i as int)),
        decreases handlers@.len() - i,
    {
        let h = &handlers[i];
        let spec = handler_spec(&h.operation);
        let ghost g = spec;
        proof {
            assert(hv[i as int] == h@);
            assert(match operation_path(hv[i as int].operation) {
                Some(p) => parsed_json_path(p) is Some,
                None => true,
            });
        }
        let ghost before = handler_entries(b.events);
        b = b.on(h.event_type.as_str(), spec);
        proof {
            let f = |e: (Seq<char>, HandlerSpec)| handler_entry_view(e);
            lemma_inserted_map(before, f, h.event_type@, g);
            assert(before.map_values(f) =~= handler_entries_of(hv.take(i as int)));
            assert(hv.take(i + 1).drop_last() =~= hv.take(i as int));
            assert(hv.take(i + 1).last() == h@);
            assert(handler_entries_view(b.events) =~= handler_entries(b.events).map_values(f));
        }
        i = i + 1;
    }
    proof {
        assert(hv.take(handlers@.len() as int) =~= hv);
    }
    b.build()
}

fn object_builder(sub_fields: &Vec<ScalarFieldDecl>, cleared_by_event: &Option<String>) -> (result: ObjectFieldSpecBuilder)
    requires
        forall|j: int| 0 <= j < sub_fields@.len()
            ==> valid_handler_paths(#[trigger] scalar_field_views(sub_fields@)[j].handlers),
    ensures
        event_type_views(result.cleared_by@) == cleared_by_of(match cleared_by_event {
            Some(e) => Some(e@),
            None => None,
        }),
        scalar_entries_view(result.fields) == object_entries_of(scalar_field_views(sub_fields@)),
{
    let ghost sv = scalar_field_views(sub_fields@);
    let mut b = ObjectFieldSpecBuilder::new();
    if let Some(evt) = cleared_by_event {
        b = b.cleared_by(evt.as_str());
        proof {
            assert(event_type_views(b.cleared_by@) =~= seq![evt@]);
        }
    } else {
        proof {
            assert(event_type_views(b.cleared_by@) =~= Seq::<Seq<char>>::empty());
        }
    }
    let ghost cleared = b.cleared_by;
    proof {
        assert(scalar_entries_view(b.fields) =~= Seq::<(Seq<char>, ScalarSpecView)>::empty());
        assert(sv.take(0) =~= Seq::<ScalarFieldView>::empty());
    }
    let mut i: usize = 0;
    while i < sub_fields.len()
        invariant
            i <= sub_fields@.len(),
            sv == scalar_field_views(sub_fields@),
            forall|j: int| 0 <= j < sub_fields@.len() ==> valid_handler_paths(#[trigger] sv[j].handlers),
            b.cleared_by == cleared,
            scalar_entries_view(b.fields) == object_entries_of(sv.take(i as int)),
        decreases sub_fields@.len() - i,
    {
        let sub = &sub_fields[i];
        proof {
            assert(sv[i as int] == sub@);
            assert(valid_handler_paths(sv[i as int].handlers));
        }
        let spec = scalar_spec(false, &sub.handlers);
        let ghost g = spec;
        let ghost before = scalar_entries(b.fields);
        b = b.field(sub.name.as_str(), spec);
        proof {
            let f = |e: (Seq<char>, ScalarFieldSpec)| scalar_entry_view(e);
            lemma_inserted_map(before, f, sub.name@, g);
            assert(before.map_values(f) =~= object_entries_of(sv.take(i as int)));
            assert(sv.take(i + 1).drop_last() =~= sv.take(i as int));
            assert(sv.take(i + 1).last() == sub@);
            assert(scalar_entries_view(b.fields) =~= scalar_entries(b.fields).map_values(f));
        }
        i = i + 1;
    }
    proof {
        assert(sv.take(sub_fields@.len() as int) =~= sv);
    }
    b
}

/// An object builder holds no ambiguous registration exactly when its
/// clearing event is handled by none of its sub-fields.
proof fn lemma_conflict_free(b: ObjectFieldSpecBuilder, subs: Seq<ScalarFieldView>, cleared: Option<Seq<char>>)
    requires
        event_type_views(b.cleared_by@) == cleared_by_of(cleared),
        scalar_entries_view(b.fields) == object_entries_of(subs),
    ensures
        clears_without_conflict(subs, cleared)
            <==> forall|c: int, f: int| !#[trigger] registered_in_both(b.cleared_by@, scalar_entries(b.fields), c, f),
{
    let fields = scalar_entries(b.fields);
    let hf = |e: (Seq<char>, HandlerSpec)| handler_entry_view(e);
    assert(event_type_views(b.cleared_by@).len() == b.cleared_by@.len());
    assert(object_entries_of(subs).len() == fields.len());
    match cleared {
        None => {
            assert(b.cleared_by@.len() == 0);
        },
        Some(e) => {
            assert(b.cleared_by@.len() == 1);
            assert(b.cleared_by@[0]@ == e) by {
                assert(event_type_views(b.cleared_by@)[0] == b.cleared_by@[0]@);
            }
            assert forall|f: int| 0 <= f < fields.len() implies (has_key(handler_entries(fields[f].1.events), e)
                <==> has_key((#[trigger] object_entries_of(subs)[f]).1.events, e)) by {
                assert(object_entries_of(subs)[f] == scalar_entry_view(fields[f]));
                assert(handler_entries_view(fields[f].1.events) =~= handler_entries(fields[f].1.events).map_values(hf));
                lemma_has_key_map(handler_entries(fields[f].1.events), hf, e);
            }
            if clears_without_conflict(subs, cleared) {
                assert forall|c: int, f: int| !#[trigger] registered_in_both(b.cleared_by@, fields, c, f) by {
                    if registered_in_both(b.cleared_by@, fields, c, f) {
                        assert(c == 0);
                        assert(has_key(object_entries_of(subs)[f].1.events, e));
                    }
                }
            } else {
                let j = choose|j: int| 0 <= j < object_entries_of(subs).len()
                    && has_key((#[trigger] object_entries_of(subs)[j]).1.events, e);
                assert(registered_in_both(b.cleared_by@, fields, 0, j));
            }
        },
    }
}

fn query_filter(q: &QuerySpec) -> (result: TagFilter)
    requires
        query_definable(q@),
    ensures
        query_filter_is(q@, result),
{
    match q {
        QuerySpec::StartsWith(s) => TagFilter::StartsWith(s.clone()),
        QuerySpec::EndsWith(s) => TagFilter::EndsWith(s.clone()),
        QuerySpec::Equals(s) => match Tag::new(s.as_str()) {
            Ok(tag) => TagFilter::Equals(tag),
            Err(_) => vstd::pervasive::unreached(),
        },
    }
}

/// The projection definition that a parsed projection declares, built as
/// the read model's `definition()` builds it: the query filter, then each
/// field in order (a scalar is required unless marked optional; an object
/// is cleared by its declared event and holds its sub-fields).
pub fn definition_of(input: &ProjectionInput) -> (result: ProjectionDefinition)
    requires
        definable(input@),
    ensures
        result.name@ == input@.name,
        query_filter_is(input@.query, result.query),
        field_entries_view(result.fields) == definition_entries_of(input@.fields),
{
    let ghost pv = input@;
    let query = query_filter(&input.query);
    let mut b = ProjectionDefinition::builder(input.name.as_str(), query);
    proof {
        assert(field_entries_view(b.fields) =~= Seq::<(Seq<char>, FieldSpecView)>::empty());
        assert(pv.fields.take(0) =~= Seq::<FieldView>::empty());
    }
    let mut i: usize = 0;
    while i < input.fields.len()
        invariant
            i <= input.fields@.len(),
            pv == input@,
            definable(pv),
            b.name@ == pv.name,
            query_filter_is(pv.query, b.query),
            field_entries_view(b.fields) == definition_entries_of(pv.fields.take(i as int)),
        decreases input.fields@.len() - i,
    {
        let field = &input.fields[i];
        proof {
            assert(pv.fields[i as int] == field@);
            assert(field_definable(pv.fields[i as int]));
        }
        let ghost before = field_entries(b.fields);
        let ghost g: FieldSpec;
        match field {
            FieldDecl::Scalar { name, optional, handlers } => {
                let spec = scalar_spec(!*optional, handlers);
                proof {
                    g = FieldSpec::Scalar(spec);
                }
                b = b.scalar(name.as_str(), spec);
            },
            FieldDecl::Object { name, sub_fields, cleared_by_event, .. } => {
                let ob = object_builder(sub_fields, cleared_by_event);
                proof {
                    lemma_conflict_free(ob, field@->Object_sub_fields, field@->Object_cleared_by_event);
                }
                let spec = ob.build();
                proof {
                    g = FieldSpec::Object(spec);
                }
                b = b.object(name.as_str(), spec);
            },
        }
        proof {
            let f = |e: (Seq<char>, FieldSpec)| field_entry_view(e);
            lemma_inserted_map(before, f, declared_name(field@), g);
            assert(g@ == field_spec_of(field@));
            assert(before.map_values(f) =~= definition_entries_of(pv.fields.take(i as int)));
            assert(pv.fields.take(i + 1).drop_last() =~= pv.fields.take(i as int));
            assert(pv.fields.take(i + 1).last() == field@);
            assert(field_entries_view(b.fields) =~= field_entries(b.fields).map_values(f));
        }
        i = i + 1;
    }
    proof {
        assert(pv.fields.take(input.fields@.len() as int) =~= pv.fields);
    }
    b.build()
}

fn handler_path_valid(h: &HandlerDecl) -> (result: bool)
    ensures
        result == match operation_path(h@.operation) {
            Some(p) => parsed_json_path(p) is Some,
            None => true,
        },
{
    match &h.operation {
        OperationDecl::FromPath(p) => parse_json_path(p.as_str()).is_some(),
        OperationDecl::IncrementBy(p) => parse_json_path(p.as_str()).is_some(),
        OperationDecl::DecrementBy(p) => parse_json_path(p.as_str()).is_some(),
        _ => true,
    }
}

fn handler_paths_valid(handlers: &Vec<HandlerDecl>) -> (result: bool)
    ensures
        result == valid_handler_paths(handler_views(handlers@)),
{
    let ghost hv = handler_views(handlers@);
    let mut i: usize = 0;
    while i < handlers.len()
        invariant
            i <= handlers@.len(),
            hv == handler_views(handlers@),
            forall|k: int| 0 <= k < i ==> match operation_path(#[trigger] hv[k].operation) {
                Some(p) => parsed_json_path(p) is Some,
                None => true,
            },
        decreases handlers@.len() - i,
    {
        proof {
            assert(hv[i as int] == handlers@[i as int]@);
        }
        if !handler_path_valid(&handlers[i]) {
            return false;
        }
        i = i + 1;
    }
    true
}

fn sub_field_paths_valid(sub_fields: &Vec<ScalarFieldDecl>) -> (result: bool)
    ensures
        result == forall|k: int| 0 <= k < sub_fields@.len()
            ==> valid_handler_paths(#[trigger] scalar_field_views(sub_fields@)[k].handlers),
{
    let ghost sv = scalar_field_views(sub_fields@);
    let mut j: usize = 0;
    while j < sub_fields.len()
        invariant
            j <= sub_fields@.len(),
            sv == scalar_field_views(sub_fields@),
            forall|k: int| 0 <= k < j ==> valid_handler_paths(#[trigger] sv[k].handlers),
        decreases sub_fields@.len() - j,
    {
        proof {
            assert(sv[j as int] == sub_fields@[j as int]@);
        }
        if !handler_paths_valid(&sub_fields[j].handlers) {
            proof {
                assert(!valid_handler_paths(sv[j as int].handlers));
            }
            return false;
        }
        j = j + 1;
    }
    true
}

fn field_is_definable(field: &FieldDecl) -> (result: bool)
    ensures
        result == field_definable(field@),
{
    match field {
        FieldDecl::Scalar { handlers, .. } => handler_paths_valid(handlers),
        FieldDecl::Object { sub_fields, cleared_by_event, .. } => {
            let ghost sv = scalar_field_views(sub_fields@);
            if !sub_field_paths_valid(sub_fields) {
                return false;
            }
            let ob = object_builder(sub_fields, cleared_by_event);
            proof {
                lemma_conflict_free(ob, sv, field@->Object_cleared_by_event);
            }
            ob.find_conflict().is_none()
        },
    }
}

/// The projection definition of a parsed projection, or `None` where
/// building it would be refused: an `equals` query with an empty tag, a
/// handler path that is not a valid JSON path, or an object cleared by an
/// event that one of its sub-fields handles.
pub fn build_definition(input: &ProjectionInput) -> (result: Option<ProjectionDefinition>)
    ensures
        result is Some <==> definable(input@),
        result matches Some(d) ==> {
            &&& d.name@ == input@.name
            &&& query_filter_is(input@.query, d.query)
            &&& field_entries_view(d.fields) == definition_entries_of(input@.fields)
        },
{
    let ghost pv = input@;
    let query_ok = match &input.query {
        QuerySpec::Equals(s) => !s.as_str().is_empty(),
        _ => true,
    };
    if !query_ok {
        return None;
    }
    let mut i: usize = 0;
    while i < input.fields.len()
        invariant
            i <= input.fields@.len(),
            pv == input@,
            query_definable(pv.query),
            forall|k: int| 0 <= k < i ==> field_definable(#[trigger] pv.fields[k]),
        decreases input.fields@.len() - i,
    {
        proof {
            assert(pv.fields[i as int] == input.fields@[i as int]@);
        }
        if !field_is_definable(&input.fields[i]) {
            return None;
        }
        i = i + 1;
    }
    Some(definition_of(input))
}

/// A handler adds or subtracts the value at a path.
pub open spec fn is_arithmetic(h: HandlerView) -> bool {
    h.operation is IncrementBy || h.operation is DecrementBy
}

/// One adding or subtracting handler, wherever it stands among the
/// handlers, makes a field numeric.
pub proof fn lemma_numeric_at_any_position(hs: Seq<HandlerView>, i: int)
    requires
        0 <= i < hs.len(),
        is_arithmetic(hs[i]),
    ensures
        numeric_handlers(hs),
{
    assert(hs[i].operation is IncrementBy || hs[i].operation is DecrementBy);
}

/// A field whose handlers neither add nor subtract is not numeric.
pub proof fn lemma_not_numeric_without_arithmetic(hs: Seq<HandlerView>)
    requires
        forall|i: int| 0 <= i < hs.len() ==> !is_arithmetic(#[trigger] hs[i]),
    ensures
        !numeric_handlers(hs),
{
    if numeric_handlers(hs) {
        let i = choose|i: int| 0 <= i < hs.len()
            && ((#[trigger] hs[i]).operation is IncrementBy || hs[i].operation is DecrementBy);
        assert(is_arithmetic(hs[i]));
    }
}

/// Joining two handler lists: the whole is numeric exactly when one of
/// the parts is.
pub proof fn lemma_numeric_concat(a: Seq<HandlerView>, b: Seq<HandlerView>)
    ensures
        numeric_handlers(a + b) == (numeric_handlers(a) || numeric_handlers(b)),
{
    let ab = a + b;
    if numeric_handlers(a) {
        let i = choose|i: int| 0 <= i < a.len() && ((#[trigger] a[i]).operation is IncrementBy || a[i].operation is DecrementBy);
        assert(ab[i] == a[i]);
        lemma_numeric_at_any_position(ab, i);
    }
    if numeric_handlers(b) {
        let i = choose|i: int| 0 <= i < b.len() && ((#[trigger] b[i]).operation is IncrementBy || b[i].operation is DecrementBy);
        assert(ab[a.len() + i] == b[i]);
        lemma_numeric_at_any_position(ab, a.len() + i);
    }
    if numeric_handlers(ab) {
        let i = choose|i: int| 0 <= i < ab.len() && ((#[trigger] ab[i]).operation is IncrementBy || ab[i].operation is DecrementBy);
        if i < a.len() {
            assert(ab[i] == a[i]);
            lemma_numeric_at_any_position(a, i);
        } else {
            assert(ab[i] == b[i - a.len()]);
            lemma_numeric_at_any_position(b, i - a.len());
        }
    }
}

/// The read model struct has one field per declaration, in order, with the
/// declared name. A scalar is `Option<..>` exactly when declared with `?`,
/// and `f64` exactly when some handler adds or subtracts (`String`
/// otherwise); an object is its companion struct `{Name}{FieldPascal}`, in
/// an `Option` exactly when declared with `?`.
pub proof fn lemma_main_field_types(p: ProjectionView, i: int)
    requires
        0 <= i < p.fields.len(),
    ensures
        layout_of(p).main.name == p.name,
        layout_of(p).main.fields.len() == p.fields.len(),
        layout_of(p).main.fields[i].0 == declared_name(p.fields[i]),
        p.fields[i] matches FieldView::Scalar { optional, handlers, .. } ==> {
            let ty = layout_of(p).main.fields[i].1;
            &&& (ty is OptionalText || ty is OptionalNumber) == optional
            &&& (ty is Number || ty is OptionalNumber)
                == exists|k: int| 0 <= k < handlers.len() && is_arithmetic(#[trigger] handlers[k])
            &&& (ty is Text || ty is Number || ty is OptionalText || ty is OptionalNumber)
        },
        p.fields[i] matches FieldView::Object { name, optional, .. } ==> layout_of(p).main.fields[i].1 == if optional {
            RustTypeView::OptionalNested(p.name + pascal_case(name))
        } else {
            RustTypeView::Nested(p.name + pascal_case(name))
        },
{
    if let FieldView::Scalar { optional, handlers, .. } = p.fields[i] {
        if numeric_handlers(handlers) {
            let k = choose|k: int| 0 <= k < handlers.len()
                && ((#[trigger] handlers[k]).operation is IncrementBy || handlers[k].operation is DecrementBy);
            assert(is_arithmetic(handlers[k]));
        }
        if exists|k: int| 0 <= k < handlers.len() && is_arithmetic(#[trigger] handlers[k]) {
            let k = choose|k: int| 0 <= k < handlers.len() && is_arithmetic(#[trigger] handlers[k]);
            lemma_numeric_at_any_position(handlers, k);
        }
    }
}

/// Every field of a companion struct is an `Option`: `f64` when some
/// handler of the sub-field adds or subtracts, `String` otherwise.
pub proof fn lemma_companion_fields_optional(sub_fields: Seq<ScalarFieldView>, j: int)
    requires
        0 <= j < sub_fields.len(),
    ensures
        companion_fields_of(sub_fields).len() == sub_fields.len(),
        companion_fields_of(sub_fields)[j].0 == sub_fields[j].name,
        companion_fields_of(sub_fields)[j].1 == if exists|k: int| 0 <= k < sub_fields[j].handlers.len()
            && is_arithmetic(#[trigger] sub_fields[j].handlers[k]) {
            RustTypeView::OptionalNumber
        } else {
            RustTypeView::OptionalText
        },
{
    let hs = sub_fields[j].handlers;
    if numeric_handlers(hs) {
        let k = choose|k: int| 0 <= k < hs.len() && ((#[trigger] hs[k]).operation is IncrementBy || hs[k].operation is DecrementBy);
        assert(is_arithmetic(hs[k]));
    }
    if exists|k: int| 0 <= k < hs.len() && is_arithmetic(#[trigger] hs[k]) {
        let k = choose|k: int| 0 <= k < hs.len() && is_arithmetic(#[trigger] hs[k]);
        lemma_numeric_at_any_position(hs, k);
    }
}

/// An operation's path, if it reads one, is a valid JSON path.
pub open spec fn path_parses(op: OperationView) -> bool {
    match op {
        OperationView::FromPath(x) => parsed_json_path(x) is Some,
        OperationView::IncrementBy(x) => parsed_json_path(x) is Some,
        OperationView::DecrementBy(x) => parsed_json_path(x) is Some,
        _ => true,
    }
}

/// A projection's definition can be built exactly when none of three
/// things happens: an `equals` query with an empty tag, a handler (of a
/// field or of an object's sub-field) whose path is not a valid JSON path,
/// or an object cleared by an event that one of the sub-fields it ends up
/// with handles. Nothing else (optional fields, numeric fields, names)
/// refuses a definition.
pub proof fn lemma_definable_exactly(p: ProjectionView)
    ensures
        definable(p) <==> {
            &&& !(p.query matches QueryView::Equals(t) && t.len() == 0)
            &&& forall|i: int| 0 <= i < p.fields.len() ==> (#[trigger] p.fields[i] matches FieldView::Scalar { handlers, .. }
                ==> forall|k: int| 0 <= k < handlers.len() ==> path_parses(#[trigger] handlers[k].operation))
            &&& forall|i: int| 0 <= i < p.fields.len() ==> (#[trigger] p.fields[i] matches FieldView::Object { sub_fields, .. }
                ==> forall|j: int, k: int| 0 <= j < sub_fields.len() && 0 <= k < sub_fields[j].handlers.len()
                    ==> path_parses(#[trigger] sub_fields[j].handlers[k].operation))
            &&& forall|i: int| 0 <= i < p.fields.len() ==> (#[trigger] p.fields[i] matches FieldView::Object { sub_fields, cleared_by_event: Some(e), .. }
                ==> forall|j: int| 0 <= j < object_entries_of(sub_fields).len()
                    ==> !has_key((#[trigger] object_entries_of(sub_fields)[j]).1.events, e))
        },
{
    assert forall|op: OperationView| #[trigger] path_parses(op) == match operation_path(op) {
        Some(x) => parsed_json_path(x) is Some,
        None => true,
    } by {}
}

/// The handler that an operation registers, by kind: a path copy copies
/// the same path, `= null` sets `null`, `= "text"` sets that text, and `|+`
/// and `|-` add and subtract the value at the same path.
pub open spec fn registers(op: OperationView, h: HandlerSpecView) -> bool {
    match op {
        OperationView::FromPath(p) => h == HandlerSpecView::From(p),
        OperationView::ValueNull => h == HandlerSpecView::Value(JsonValueView::Null),
        OperationView::ValueString(t) => h == HandlerSpecView::Value(JsonValueView::Text(t)),
        OperationView::IncrementBy(p) => h == HandlerSpecView::IncrementBy(p),
        OperationView::DecrementBy(p) => h == HandlerSpecView::DecrementBy(p),
    }
}

/// A field reacts to exactly the event types that its handlers name.
pub proof fn lemma_handler_event_types(hs: Seq<HandlerView>)
    ensures
        forall|e: Seq<char>| #[trigger] has_key(handler_entries_of(hs), e)
            == exists|k: int| 0 <= k < hs.len() && (#[trigger] hs[k]).event_type == e,
    decreases hs.len(),
{
    if hs.len() > 0 {
        let init = hs.drop_last();
        lemma_handler_event_types(init);
        lemma_inserted_facts(handler_entries_of(init), hs.last().event_type, handler_spec_of(hs.last().operation));
        assert forall|e: Seq<char>| #[trigger] has_key(handler_entries_of(hs), e)
            == exists|k: int| 0 <= k < hs.len() && (#[trigger] hs[k]).event_type == e by {
            if exists|k: int| 0 <= k < hs.len() && (#[trigger] hs[k]).event_type == e {
                let k = choose|k: int| 0 <= k < hs.len() && (#[trigger] hs[k]).event_type == e;
                if k < init.len() {
                    assert(init[k] == hs[k]);
                }
            }
            if exists|k: int| 0 <= k < init.len() && (#[trigger] init[k]).event_type == e {
                let k = choose|k: int| 0 <= k < init.len() && (#[trigger] init[k]).event_type == e;
                assert(hs[k] == init[k]);
            }
            assert(hs[hs.len() - 1] == hs.last());
        }
    }
}

/// Of several handlers of one event type, the last one counts: the field's
/// handler for that event type is what the last of them registers.
pub proof fn lemma_last_handler_wins(hs: Seq<HandlerView>, k: int)
    requires
        0 <= k < hs.len(),
        forall|m: int| k < m < hs.len() ==> (#[trigger] hs[m]).event_type != hs[k].event_type,
    ensures
        exists|j: int| {
            &&& 0 <= j < handler_entries_of(hs).len()
            &&& (#[trigger] handler_entries_of(hs)[j]).0 == hs[k].event_type
            &&& registers(hs[k].operation, handler_entries_of(hs)[j].1)
        },
    decreases hs.len(),
{
    let init = hs.drop_last();
    let es = handler_entries_of(init);
    lemma_inserted_facts(es, hs.last().event_type, handler_spec_of(hs.last().operation));
    let r = handler_entries_of(hs);
    if k == hs.len() - 1 {
        let j = key_index(r, hs.last().event_type);
        lemma_key_index_bounds(r, hs.last().event_type);
        assert(hs[k] == hs.last());
        assert(r[j] == (hs.last().event_type, handler_spec_of(hs.last().operation)));
        assert(registers(hs[k].operation, r[j].1));
        assert(0 <= j < r.len() && r[j].0 == hs[k].event_type);
    } else {
        assert forall|m: int| k < m < init.len() implies (#[trigger] init[m]).event_type != init[k].event_type by {
            assert(init[m] == hs[m]);
        }
        lemma_last_handler_wins(init, k);
        let j = choose|j: int| {
            &&& 0 <= j < es.len()
            &&& (#[trigger] es[j]).0 == init[k].event_type
            &&& registers(init[k].operation, es[j].1)
        };
        assert(hs[hs.len() - 1].event_type != hs[k].event_type);
        assert(r[j] == es[j]);
    }
}

/// The spec of a declared field: a scalar is required exactly when declared
/// without `?`, starts without a default, and registers its handlers; an
/// object is of type `"object"`, cleared by its declared event and nothing
/// else, and holds its sub-fields.
pub proof fn lemma_field_spec_follows_declaration(f: FieldView)
    ensures
        f matches FieldView::Scalar { optional, handlers, .. } ==> field_spec_of(f) matches FieldSpecView::Scalar(s)
            && s.required == !optional && s.default is None && s.events == handler_entries_of(handlers),
        f matches FieldView::Object { sub_fields, cleared_by_event, .. } ==> field_spec_of(f) matches FieldSpecView::Object { field_type, cleared_by, fields }
            && field_type == "object"@ && fields == object_entries_of(sub_fields)
            && cleared_by.len() == (if cleared_by_event is Some { 1int } else { 0int })
            && (cleared_by_event matches Some(e) ==> cleared_by[0] == e),
{
}

/// No sub-field of an object is required or has a default.
pub proof fn lemma_sub_fields_optional(subs: Seq<ScalarFieldView>)
    ensures
        forall|j: int| 0 <= j < object_entries_of(subs).len()
            ==> !(#[trigger] object_entries_of(subs)[j]).1.required && object_entries_of(subs)[j].1.default is None,
    decreases subs.len(),
{
    if subs.len() > 0 {
        lemma_sub_fields_optional(subs.drop_last());
        let es = object_entries_of(subs.drop_last());
        lemma_key_index_bounds(es, subs.last().name);
    }
}

/// `key_index` is an index of the entries or -1.
proof fn lemma_key_index_bounds<V>(es: Seq<(Seq<char>, V)>, k: Seq<char>)
    ensures
        -1 <= key_index(es, k) < es.len(),
{
    crate::projection::maps::lemma_key_index(es, k);
}

/// A projection's definition has exactly the fields that are declared, by
/// name.
pub proof fn lemma_definition_field_names(fs: Seq<FieldView>)
    ensures
        forall|n: Seq<char>| #[trigger] has_key(definition_entries_of(fs), n)
            == exists|k: int| 0 <= k < fs.len() && declared_name(#[trigger] fs[k]) == n,
    decreases fs.len(),
{
    if fs.len() > 0 {
        let init = fs.drop_last();
        lemma_definition_field_names(init);
        lemma_inserted_facts(definition_entries_of(init), declared_name(fs.last()), field_spec_of(fs.last()));
        assert forall|n: Seq<char>| #[trigger] has_key(definition_entries_of(fs), n)
            == exists|k: int| 0 <= k < fs.len() && declared_name(#[trigger] fs[k]) == n by {
            if exists|k: int| 0 <= k < fs.len() && declared_name(#[trigger] fs[k]) == n {
                let k = choose|k: int| 0 <= k < fs.len() && declared_name(#[trigger] fs[k]) == n;
                if k < init.len() {
                    assert(init[k] == fs[k]);
                }
            }
            if exists|k: int| 0 <= k < init.len() && declared_name(#[trigger] init[k]) == n {
                let k = choose|k: int| 0 <= k < init.len() && declared_name(#[trigger] init[k]) == n;
                assert(fs[k] == init[k]);
            }
            assert(fs[fs.len() - 1] == fs.last());
        }
    }
}

/// Inside a word (no `_`), PascalCase keeps every character after the
/// first as it is.
proof fn lemma_pascal_rest_of_word(w: Seq<char>)
    requires
        forall|i: int| 0 <= i < w.len() ==> w[i] != '_',
    ensures
        pascal_from(w, false) == w,
    decreases w.len(),
{
    if w.len() > 0 {
        lemma_pascal_rest_of_word(w.drop_first());
        assert(seq![w[0]] + w.drop_first() =~= w);
    }
}

/// A word without `_` becomes its first character upper-cased, followed by
/// the rest of the word unchanged.
pub proof fn lemma_pascal_word(w: Seq<char>)
    requires
        w.len() > 0,
        forall|i: int| 0 <= i < w.len() ==> w[i] != '_',
    ensures
        pascal_case(w) == uppercase_of(w[0]) + w.drop_first(),
{
    lemma_pascal_rest_of_word(w.drop_first());
}

/// `_` separates words: the PascalCase of `a_b` is that of `a` followed by
/// that of `b`.
pub proof fn lemma_pascal_underscore(a: Seq<char>, b: Seq<char>)
    ensures
        pascal_case(a + seq!['_'] + b) == pascal_case(a) + pascal_case(b),
{
    lemma_pascal_from_underscore(a, b, true);
}

proof fn lemma_pascal_from_underscore(a: Seq<char>, b: Seq<char>, at_start: bool)
    ensures
        pascal_from(a + seq!['_'] + b, at_start) == pascal_from(a, at_start) + pascal_from(b, true),
    decreases a.len(),
{
    let x = a + seq!['_'] + b;
    if a.len() == 0 {
        assert(x.drop_first() =~= b);
        assert(pascal_from(a, at_start) =~= Seq::<char>::empty());
        assert(Seq::<char>::empty() + pascal_from(b, true) =~= pascal_from(b, true));
    } else {
        assert(x.drop_first() =~= a.drop_first() + seq!['_'] + b);
        assert(x[0] == a[0]);
        if a[0] == '_' {
            lemma_pascal_from_underscore(a.drop_first(), b, true);
        } else if at_start {
            lemma_pascal_from_underscore(a.drop_first(), b, false);
            assert(uppercase_of(a[0]) + (pascal_from(a.drop_first(), false) + pascal_from(b, true))
                =~= uppercase_of(a[0]) + pascal_from(a.drop_first(), false) + pascal_from(b, true));
        } else {
            lemma_pascal_from_underscore(a.drop_first(), b, false);
            assert(seq![a[0]] + (pascal_from(a.drop_first(), false) + pascal_from(b, true))
                =~= seq![a[0]] + pascal_from(a.drop_first(), false) + pascal_from(b, true));
        }
    }
}

/// The companion structs are the object fields, in order: each is named
/// `{Name}{FieldPascal}` and holds the object's sub-fields; scalar fields
/// have none.
pub proof fn lemma_companions_are_object_fields(projection: Seq<char>, fs: Seq<FieldView>)
    ensures
        companions_of(projection, fs).len() == object_count(fs),
        forall|i: int| 0 <= i < fs.len() ==> (#[trigger] fs[i] matches FieldView::Object { name, sub_fields, .. }
            ==> companions_of(projection, fs)[object_count(fs.take(i))] == (StructView {
                name: projection + pascal_case(name),
                fields: companion_fields_of(sub_fields),
            })),
    decreases fs.len(),
{
    if fs.len() > 0 {
        let init = fs.drop_last();
        lemma_companions_are_object_fields(projection, init);
        assert(fs.take(fs.len() - 1) =~= init);
        let before = companions_of(projection, init);
        let all = companions_of(projection, fs);
        lemma_object_count_nonneg(init);
        if fs.last() is Object {
            assert(all == before.push(StructView {
                name: companion_name(projection, fs.last()->Object_name),
                fields: companion_fields_of(fs.last()->Object_sub_fields),
            }));
            assert(object_count(fs) == object_count(init) + 1);
        } else {
            assert(all == before);
            assert(object_count(fs) == object_count(init));
        }
        assert forall|i: int| 0 <= i < fs.len() implies (#[trigger] fs[i] matches FieldView::Object { name, sub_fields, .. }
            ==> companions_of(projection, fs)[object_count(fs.take(i))] == (StructView {
                name: projection + pascal_case(name),
                fields: companion_fields_of(sub_fields),
            })) by {
            if fs[i] is Object {
                if i < init.len() {
                    assert(fs.take(i) =~= init.take(i));
                    assert(fs[i] == init[i]);
                    lemma_object_count_bound(init.take(i), init, i);
                    lemma_object_count_nonneg(init.take(i));
                    assert(all[object_count(init.take(i))] == before[object_count(init.take(i))]);
                } else {
                    assert(fs.take(i) =~= init);
                    assert(fs[i] == fs.last());
                }
            }
        }
    }
}

/// The number of object fields among the declarations.
pub open spec fn object_count(fs: Seq<FieldView>) -> int
    decreases fs.len(),
{
    if fs.len() == 0 {
        0
    } else {
        object_count(fs.drop_last()) + if fs.last() is Object { 1int } else { 0int }
    }
}

proof fn lemma_object_count_nonneg(fs: Seq<FieldView>)
    ensures
        object_count(fs) >= 0,
    decreases fs.len(),
{
    if fs.len() > 0 {
        lemma_object_count_nonneg(fs.drop_last());
    }
}

/// An object field before the end of a list is counted among the objects
/// before it, so its companion comes before the last object's.
proof fn lemma_object_count_bound(prefix: Seq<FieldView>, fs: Seq<FieldView>, i: int)
    requires
        0 <= i < fs.len(),
        prefix == fs.take(i),
        fs[i] is Object,
    ensures
        object_count(prefix) < object_count(fs),
    decreases fs.len(),
{
    if i < fs.len() - 1 {
        assert(fs.drop_last().take(i) =~= prefix);
        lemma_object_count_bound(prefix, fs.drop_last(), i);
    } else {
        assert(fs.drop_last() =~= prefix);
    }
}

} // verus!
