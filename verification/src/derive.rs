//! The schema that `#[derive(Event)]` records for a struct: the struct's name
//! is the event type, and each named field becomes a `FieldDef` whose type
//! follows from the field's Rust type as written.
use quote::ToTokens;
use vstd::prelude::*;

use crate::schema::{EventSchemaDef, EventSchemaView, FieldDef, FieldType};
use crate::text::{str_ends_with, str_starts_with, text_is};

verus! {

/// Why a declaration cannot derive `Event`.
#[derive(Debug, Clone, PartialEq, Eq)]
pub enum DeriveEventError {
    /// The input is not a Rust item that can derive (a struct, enum or union).
    NotAnItem,
    /// The item is an enum or a union.
    NotAStruct,
    /// The struct is a tuple struct or a unit struct.
    UnnamedFields,
    /// A field's type, written as given (without `Option<..>`), has no field type.
    UnsupportedFieldType(String),
}

impl DeriveEventError {
    /// The diagnostic shown for the error.
    pub fn message(&self) -> (result: String)
        ensures
            result@ == match self {
                DeriveEventError::NotAnItem => "expected `struct`, `enum` or `union`"@,
                DeriveEventError::NotAStruct => "#[derive(Event)] only supports structs"@,
                DeriveEventError::UnnamedFields => "#[derive(Event)] only supports structs with named fields"@,
                DeriveEventError::UnsupportedFieldType(t) => "unsupported field type for #[derive(Event)]: `"@ + t@
                    + "`. Use String, integer primitive, f32/f64, chrono::NaiveDate, or chrono::DateTime"@,
            },
    {
        match self {
            DeriveEventError::NotAnItem => String::from_str("expected `struct`, `enum` or `union`"),
            DeriveEventError::NotAStruct => String::from_str("#[derive(Event)] only supports structs"),
            DeriveEventError::UnnamedFields => String::from_str(
                "#[derive(Event)] only supports structs with named fields",
            ),
            DeriveEventError::UnsupportedFieldType(t) => {
                let mut m = String::from_str("unsupported field type for #[derive(Event)]: `");
                m.append(t.as_str());
                m.append("`. Use String, integer primitive, f32/f64, chrono::NaiveDate, or chrono::DateTime");
                m
            },
        }
    }
}

/// A named field of a struct: its name and its type as written.
#[derive(Debug, Clone, PartialEq, Eq)]
pub struct DeclaredField {
    pub name: String,
    pub type_text: String,
}

/// The shape of the item that derives `Event`.
#[derive(Debug, Clone, PartialEq, Eq)]
pub enum DeclaredShape {
    /// A struct with named fields, in declaration order.
    NamedFields(Vec<DeclaredField>),
    /// A tuple struct or a unit struct.
    UnnamedFields,
    /// An enum or a union.
    NotAStruct,
}

/// The shape of a declared item as plain values: each named field as its
/// name and its type's text.
pub ghost enum DeclaredShapeView {
    NamedFields(Seq<(Seq<char>, Seq<char>)>),
    UnnamedFields,
    NotAStruct,
}

/// A declared field as its name and its type's text.
pub open spec fn declared_pair(f: DeclaredField) -> (Seq<char>, Seq<char>) {
    (f.name@, f.type_text@)
}

/// Declared fields as names and type texts.
pub open spec fn declared_pairs(fs: Seq<DeclaredField>) -> Seq<(Seq<char>, Seq<char>)> {
    fs.map_values(|f: DeclaredField| declared_pair(f))
}

impl View for DeclaredShape {
    type V = DeclaredShapeView;

    open spec fn view(&self) -> DeclaredShapeView {
        match self {
            DeclaredShape::NamedFields(fs) => DeclaredShapeView::NamedFields(declared_pairs(fs@)),
            DeclaredShape::UnnamedFields => DeclaredShapeView::UnnamedFields,
            DeclaredShape::NotAStruct => DeclaredShapeView::NotAStruct,
        }
    }
}

/// The text with its spaces removed.
pub open spec fn without_spaces(s: Seq<char>) -> Seq<char> {
    s.filter(|c: char| c != ' ')
}

/// A type written `Option<T>` gives `T` and `true`; any other type gives
/// itself and `false`.
pub open spec fn option_split(t: Seq<char>) -> (Seq<char>, bool) {
    if "Option<"@.is_prefix_of(t) && ">"@.is_suffix_of(t) {
        (t.subrange(7, t.len() - 1), true)
    } else {
        (t, false)
    }
}

/// The field type of a Rust type written without spaces: strings (and
/// `bool`) are `String`, integer primitives `Integer`, `f32`/`f64`
/// `Decimal`, `chrono::NaiveDate` `Date`, and the `chrono` date-times
/// `DateTime`; other types have none.
pub open spec fn named_field_type(t: Seq<char>) -> Option<FieldType> {
    if t == "String"@ || t == "std::string::String"@ || t == "&str"@ || t == "str"@ {
        Some(FieldType::String)
    } else if t == "i8"@ || t == "i16"@ || t == "i32"@ || t == "i64"@ || t == "i128"@ || t == "u8"@
        || t == "u16"@ || t == "u32"@ || t == "u64"@ || t == "u128"@ || t == "usize"@ || t == "isize"@ {
        Some(FieldType::Integer)
    } else if t == "f32"@ || t == "f64"@ {
        Some(FieldType::Decimal)
    } else if t == "bool"@ {
        Some(FieldType::String)
    } else if t == "chrono::NaiveDate"@ {
        Some(FieldType::Date)
    } else if t == "chrono::DateTime"@ || t == "chrono::DateTime<chrono::Utc>"@ || t == "DateTime<Utc>"@ {
        Some(FieldType::DateTime)
    } else {
        None
    }
}

/// No character of `t` is a space.
pub open spec fn no_spaces(t: Seq<char>) -> bool {
    forall|i: int| 0 <= i < t.len() ==> t[i] != ' '
}

/// The Rust integer primitives, as written.
pub open spec fn integer_primitive(t: Seq<char>) -> bool {
    ||| t == "i8"@ ||| t == "i16"@ ||| t == "i32"@ ||| t == "i64"@ ||| t == "i128"@ ||| t == "isize"@
    ||| t == "u8"@ ||| t == "u16"@ ||| t == "u32"@ ||| t == "u64"@ ||| t == "u128"@ ||| t == "usize"@
}

/// The Rust floating-point primitives, as written.
pub open spec fn float_primitive(t: Seq<char>) -> bool {
    t == "f32"@ || t == "f64"@
}

/// Removing spaces from a text without spaces leaves it as it is.
proof fn lemma_without_spaces_plain(t: Seq<char>)
    requires
        no_spaces(t),
    ensures
        without_spaces(t) == t,
    decreases t.len(),
{
    reveal(Seq::filter);
    if t.len() > 0 {
        lemma_without_spaces_plain(t.drop_last());
        assert(t.drop_last().push(t.last()) =~= t);
    }
}

/// A text made of two texts without spaces has no spaces.
proof fn lemma_no_spaces_concat(a: Seq<char>, b: Seq<char>)
    requires
        no_spaces(a),
        no_spaces(b),
    ensures
        no_spaces(a + b),
{
    assert forall|i: int| 0 <= i < (a + b).len() implies (a + b)[i] != ' ' by {
        if i < a.len() {
            assert((a + b)[i] == a[i]);
        } else {
            assert((a + b)[i] == b[i - a.len()]);
        }
    }
}

/// Texts that differ in their first character differ.
proof fn lemma_first_char_differs(a: Seq<char>, b: Seq<char>)
    requires
        a.len() > 0,
        b.len() > 0,
        a[0] != b[0],
    ensures
        a != b,
{
}

/// A short type without spaces is judged as written, and in `Option<..>` it
/// is judged the same and optional.
#[verifier::rlimit(40)]
proof fn lemma_plain_and_optional(t: Seq<char>)
    requires
        no_spaces(t),
        t.len() == 0 || t[0] != 'O',
    ensures
        field_type_of(t) == match named_field_type(t) {
            Some(ft) => Some((ft, false)),
            None => None::<(FieldType, bool)>,
        },
        field_type_of("Option<"@ + t + ">"@) == match named_field_type(t) {
            Some(ft) => Some((ft, true)),
            None => None::<(FieldType, bool)>,
        },
{
    reveal_strlit("Option<");
    reveal_strlit(">");
    let open = "Option<"@;
    let close = ">"@;
    assert(no_spaces(open)) by {
        assert forall|i: int| 0 <= i < open.len() implies open[i] != ' ' by {
            if i == 0 {} else if i == 1 {} else if i == 2 {} else if i == 3 {} else if i == 4 {} else if i == 5 {} else {}
        }
    }
    assert(no_spaces(close));
    lemma_without_spaces_plain(t);
    lemma_no_spaces_concat(open, t);
    lemma_no_spaces_concat(open + t, close);
    let o = open + t + close;
    lemma_without_spaces_plain(o);
    assert(o.subrange(0, 7) =~= open);
    assert(o.subrange(o.len() - 1, o.len() as int) =~= close);
    assert(o.subrange(7, o.len() - 1) =~= t);
    assert(open.is_prefix_of(o));
    assert(close.is_suffix_of(o));
    assert(open[0] == 'O');
    if open.is_prefix_of(t) {
        assert(t.subrange(0, 7)[0] == t[0]);
    }
}

/// The first characters of the string type names and of the primitives.
proof fn lemma_type_name_letters()
    ensures
        "String"@.len() > 0 && "String"@[0] == 'S',
        "std::string::String"@.len() > 0 && "std::string::String"@[0] == 's',
        "&str"@.len() > 0 && "&str"@[0] == '&',
        "str"@.len() > 0 && "str"@[0] == 's',
        "i8"@.len() > 0 && "i8"@[0] == 'i',
        "i16"@.len() > 0 && "i16"@[0] == 'i',
        "i32"@.len() > 0 && "i32"@[0] == 'i',
        "i64"@.len() > 0 && "i64"@[0] == 'i',
        "i128"@.len() > 0 && "i128"@[0] == 'i',
        "isize"@.len() > 0 && "isize"@[0] == 'i',
        "u8"@.len() > 0 && "u8"@[0] == 'u',
        "u16"@.len() > 0 && "u16"@[0] == 'u',
        "u32"@.len() > 0 && "u32"@[0] == 'u',
        "u64"@.len() > 0 && "u64"@[0] == 'u',
        "u128"@.len() > 0 && "u128"@[0] == 'u',
        "usize"@.len() > 0 && "usize"@[0] == 'u',
        "f32"@.len() > 0 && "f32"@[0] == 'f',
        "f64"@.len() > 0 && "f64"@[0] == 'f',
{
    reveal_strlit("String");
    reveal_strlit("std::string::String");
    reveal_strlit("&str");
    reveal_strlit("str");
    reveal_strlit("i8");
    reveal_strlit("i16");
    reveal_strlit("i32");
    reveal_strlit("i64");
    reveal_strlit("i128");
    reveal_strlit("isize");
    reveal_strlit("u8");
    reveal_strlit("u16");
    reveal_strlit("u32");
    reveal_strlit("u64");
    reveal_strlit("u128");
    reveal_strlit("usize");
    reveal_strlit("f32");
    reveal_strlit("f64");
}

/// A primitive's name is short and has no spaces.
proof fn lemma_primitive_shape(t: Seq<char>)
    requires
        integer_primitive(t) || float_primitive(t),
    ensures
        no_spaces(t),
        t.len() > 0 && t[0] != 'O',
{
    reveal_strlit("i8");
    reveal_strlit("i16");
    reveal_strlit("i32");
    reveal_strlit("i64");
    reveal_strlit("i128");
    reveal_strlit("isize");
    reveal_strlit("u8");
    reveal_strlit("u16");
    reveal_strlit("u32");
    reveal_strlit("u64");
    reveal_strlit("u128");
    reveal_strlit("usize");
    reveal_strlit("f32");
    reveal_strlit("f64");
    assert forall|i: int| 0 <= i < t.len() implies t[i] != ' ' by {
        if i == 0 {} else if i == 1 {} else if i == 2 {} else if i == 3 {} else {}
    }
}

/// Every Rust integer primitive, as a field's type, is recorded as an
/// integer; in `Option<..>` it is an optional integer.
pub proof fn lemma_integer_primitives_are_integers(t: Seq<char>)
    requires
        integer_primitive(t),
    ensures
        field_type_of(t) == Some((FieldType::Integer, false)),
        field_type_of("Option<"@ + t + ">"@) == Some((FieldType::Integer, true)),
{
    lemma_type_name_letters();
    lemma_primitive_shape(t);
    assert(t[0] == 'i' || t[0] == 'u');
    lemma_first_char_differs(t, "String"@);
    lemma_first_char_differs(t, "std::string::String"@);
    lemma_first_char_differs(t, "&str"@);
    lemma_first_char_differs(t, "str"@);
    assert(named_field_type(t) == Some(FieldType::Integer));
    lemma_plain_and_optional(t);
}

/// `f32` and `f64`, as a field's type, are recorded as decimals; in
/// `Option<..>` as optional decimals.
pub proof fn lemma_float_primitives_are_decimals(t: Seq<char>)
    requires
        float_primitive(t),
    ensures
        field_type_of(t) == Some((FieldType::Decimal, false)),
        field_type_of("Option<"@ + t + ">"@) == Some((FieldType::Decimal, true)),
{
    lemma_type_name_letters();
    lemma_primitive_shape(t);
    assert(t[0] == 'f');
    lemma_first_char_differs(t, "String"@);
    lemma_first_char_differs(t, "std::string::String"@);
    lemma_first_char_differs(t, "&str"@);
    lemma_first_char_differs(t, "str"@);
    lemma_first_char_differs(t, "i8"@);
    lemma_first_char_differs(t, "i16"@);
    lemma_first_char_differs(t, "i32"@);
    lemma_first_char_differs(t, "i64"@);
    lemma_first_char_differs(t, "i128"@);
    lemma_first_char_differs(t, "isize"@);
    lemma_first_char_differs(t, "u8"@);
    lemma_first_char_differs(t, "u16"@);
    lemma_first_char_differs(t, "u32"@);
    lemma_first_char_differs(t, "u64"@);
    lemma_first_char_differs(t, "u128"@);
    lemma_first_char_differs(t, "usize"@);
    assert(named_field_type(t) == Some(FieldType::Decimal));
    lemma_plain_and_optional(t);
}

/// The type that a field's written type is judged by: without spaces and
/// without an `Option<..>` around it.
pub open spec fn judged_type(type_text: Seq<char>) -> Seq<char> {
    option_split(without_spaces(type_text)).0
}

/// The field type and optionality of a field whose type is written
/// `type_text`, if the type is supported.
pub open spec fn field_type_of(type_text: Seq<char>) -> Option<(FieldType, bool)> {
    match named_field_type(judged_type(type_text)) {
        Some(ft) => Some((ft, option_split(without_spaces(type_text)).1)),
        None => None,
    }
}

/// The field triple that a supported declared field (name, type text)
/// records.
pub open spec fn field_key(f: (Seq<char>, Seq<char>)) -> (Seq<char>, FieldType, bool) {
    (f.0, field_type_of(f.1)->Some_0.0, field_type_of(f.1)->Some_0.1)
}

/// Every declared field before `n` has a supported type.
pub open spec fn supported_up_to(fields: Seq<(Seq<char>, Seq<char>)>, n: int) -> bool {
    forall|k: int| 0 <= k < n ==> (#[trigger] field_type_of(fields[k].1)) is Some
}

/// `result` is what deriving `Event` gives for the item `name` of shape
/// `shape`: enums, unions, tuple and unit structs are refused; otherwise the
/// first field whose type is not supported is refused with the type it was
/// judged by, and without one the schema holds the item's name and each
/// field's triple, in order.
pub open spec fn derive_outcome(name: Seq<char>, shape: DeclaredShapeView, result: Result<EventSchemaDef, DeriveEventError>) -> bool {
    match shape {
        DeclaredShapeView::NotAStruct => result == Err::<EventSchemaDef, DeriveEventError>(DeriveEventError::NotAStruct),
        DeclaredShapeView::UnnamedFields => result == Err::<EventSchemaDef, DeriveEventError>(DeriveEventError::UnnamedFields),
        DeclaredShapeView::NamedFields(fields) => if supported_up_to(fields, fields.len() as int) {
            result matches Ok(schema) && schema@ == (EventSchemaView {
                event_type: name,
                fields: fields.map_values(|f: (Seq<char>, Seq<char>)| field_key(f)),
            })
        } else {
            exists|k: int| {
                &&& 0 <= k < fields.len()
                &&& supported_up_to(fields, k)
                &&& (#[trigger] field_type_of(fields[k].1)) is None
                &&& result matches Err(DeriveEventError::UnsupportedFieldType(t)) && t@ == judged_type(fields[k].1)
            }
        },
    }
}

fn strip_spaces(s: &str) -> (result: String)
    ensures
        result@ == without_spaces(s@),
{
    let n = s.unicode_len();
    let mut out = String::new();
    let mut i: usize = 0;
    proof {
        assert(s@.take(0) =~= Seq::<char>::empty());
        reveal(Seq::filter);
    }
    while i < n
        invariant
            n == s@.len(),
            i <= n,
            out@ == without_spaces(s@.take(i as int)),
        decreases n - i,
    {
        let c = s.get_char(i);
        proof {
            assert(s@.take(i + 1).drop_last() =~= s@.take(i as int));
            assert(s@.take(i + 1).last() == c);
        }
        let ghost before = out@;
        if c != ' ' {
            out.push(c);
        }
        proof {
            let t = s@.take(i + 1);
            reveal(Seq::filter);
            assert(without_spaces(t) == if c != ' ' {
                without_spaces(t.drop_last()).push(c)
            } else {
                without_spaces(t.drop_last())
            });
        }
        i = i + 1;
    }
    proof {
        assert(s@.take(n as int) =~= s@);
    }
    out
}

fn split_option(t: &str) -> (result: (&str, bool))
    ensures
        (result.0@, result.1) == option_split(t@),
{
    if str_starts_with(t, "Option<") && str_ends_with(t, ">") {
        proof {
            reveal_strlit("Option<");
            reveal_strlit(">");
            assert(t@.subrange(0, 7)[6] == t@[6]);
            assert(t@.subrange(t@.len() - 1, t@.len() as int)[0] == t@[t@.len() - 1]);
        }
        let n = t.unicode_len();
        (t.substring_char(7, n - 1), true)
    } else {
        (t, false)
    }
}

fn named_field_type_exec(t: &str) -> (result: Option<FieldType>)
    ensures
        result == named_field_type(t@),
{
    if text_is(t, "String") || text_is(t, "std::string::String") || text_is(t, "&str") || text_is(t, "str") {
        Some(FieldType::String)
    } else if text_is(t, "i8") || text_is(t, "i16") || text_is(t, "i32") || text_is(t, "i64") || text_is(t, "i128")
        || text_is(t, "u8") || text_is(t, "u16") || text_is(t, "u32") || text_is(t, "u64") || text_is(t, "u128")
        || text_is(t, "usize") || text_is(t, "isize") {
        Some(FieldType::Integer)
    } else if text_is(t, "f32") || text_is(t, "f64") {
        Some(FieldType::Decimal)
    } else if text_is(t, "bool") {
        Some(FieldType::String)
    } else if text_is(t, "chrono::NaiveDate") {
        Some(FieldType::Date)
    } else if text_is(t, "chrono::DateTime") || text_is(t, "chrono::DateTime<chrono::Utc>") || text_is(t, "DateTime<Utc>") {
        Some(FieldType::DateTime)
    } else {
        None
    }
}

/// The field type and optionality of a field whose Rust type, as written, is
/// `type_text`: spaces are ignored, `Option<T>` is optional `T`, and a type
/// without a field type is refused with the type it was judged by.
pub fn map_rust_type_to_field_type(type_text: &str) -> (result: Result<(FieldType, bool), DeriveEventError>)
    ensures
        match field_type_of(type_text@) {
            Some(p) => result matches Ok(q) && q == p,
            None => result matches Err(DeriveEventError::UnsupportedFieldType(t)) && t@ == judged_type(type_text@),
        },
{
    let compact = strip_spaces(type_text);
    let (inner, optional) = split_option(compact.as_str());
    match named_field_type_exec(inner) {
        Some(ft) => Ok((ft, optional)),
        None => Err(DeriveEventError::UnsupportedFieldType(inner.to_owned())),
    }
}

/// The schema that `#[derive(Event)]` records for the item `item_name` of
/// the given shape: the event type is the item's name and each named field,
/// in order, gives a `FieldDef`. Enums, unions, tuple and unit structs are
/// refused, and so is the first field whose type has no field type.
pub fn derive_event_schema(item_name: &str, shape: &DeclaredShape) -> (result: Result<EventSchemaDef, DeriveEventError>)
    ensures
        derive_outcome(item_name@, shape@, result),
{
    let fields = match shape {
        DeclaredShape::NotAStruct => {
            return Err(DeriveEventError::NotAStruct);
        },
        DeclaredShape::UnnamedFields => {
            return Err(DeriveEventError::UnnamedFields);
        },
        DeclaredShape::NamedFields(fields) => fields,
    };
    let ghost fv = declared_pairs(fields@);
    let mut defs: Vec<FieldDef> = Vec::new();
    let mut i: usize = 0;
    while i < fields.len()
        invariant
            i <= fields@.len(),
            *shape == DeclaredShape::NamedFields(*fields),
            fv == declared_pairs(fields@),
            defs@.len() == i,
            supported_up_to(fv, i as int),
            forall|k: int| 0 <= k < i ==> (#[trigger] defs@[k]).key() == field_key(fv[k]),
        decreases fields@.len() - i,
    {
        let field = &fields[i];
        proof {
            assert(fv[i as int] == declared_pair(fields@[i as int]));
        }
        match map_rust_type_to_field_type(field.type_text.as_str()) {
            Ok((field_type, optional)) => {
                defs.push(FieldDef { name: field.name.clone(), field_type, optional });
            },
            Err(e) => {
                proof {
                    assert(field_type_of(fv[i as int].1) is None);
                    assert(!supported_up_to(fv, fv.len() as int));
                }
                return Err(e);
            },
        }
        i = i + 1;
    }
    let schema = EventSchemaDef { event_type: String::from_str(item_name), fields: defs };
    proof {
        assert(schema@.fields =~= fv.map_values(|f: (Seq<char>, Seq<char>)| field_key(f)));
    }
    Ok(schema)
}

/// The string types and `bool`, as written.
pub open spec fn text_like_type(t: Seq<char>) -> bool {
    ||| t == "String"@ ||| t == "std::string::String"@ ||| t == "&str"@ ||| t == "str"@ ||| t == "bool"@
}

/// The `chrono` date-time types, as written.
pub open spec fn date_time_type(t: Seq<char>) -> bool {
    ||| t == "chrono::DateTime"@ ||| t == "chrono::DateTime<chrono::Utc>"@ ||| t == "DateTime<Utc>"@
}

/// The string types and `bool`, as a field's type, are recorded as
/// strings; `chrono::NaiveDate` as a date; the `chrono` date-times as date-
/// times. In `Option<..>` each is the same and optional.
pub proof fn lemma_other_written_types(t: Seq<char>)
    requires
        text_like_type(t) || t == "chrono::NaiveDate"@ || date_time_type(t),
    ensures
        ({
            let ft = if text_like_type(t) {
                FieldType::String
            } else if t == "chrono::NaiveDate"@ {
                FieldType::Date
            } else {
                FieldType::DateTime
            };
            &&& field_type_of(t) == Some((ft, false))
            &&& field_type_of("Option<"@ + t + ">"@) == Some((ft, true))
        }),
{
    lemma_type_name_letters();
    reveal_strlit("bool");
    reveal_strlit("chrono::NaiveDate");
    reveal_strlit("chrono::DateTime");
    reveal_strlit("chrono::DateTime<chrono::Utc>");
    reveal_strlit("DateTime<Utc>");
    reveal_strlit("String");
    reveal_strlit("std::string::String");
    reveal_strlit("&str");
    reveal_strlit("str");
    assert(t.len() > 0 && t[0] != 'O');
    assert(no_spaces(t)) by {
        assert forall|i: int| 0 <= i < t.len() implies t[i] != ' ' by {
            if t == "String"@ {
            } else if t == "std::string::String"@ {
            } else if t == "&str"@ {
            } else if t == "str"@ {
            } else if t == "bool"@ {
            } else if t == "chrono::NaiveDate"@ {
            } else if t == "chrono::DateTime"@ {
            } else if t == "chrono::DateTime<chrono::Utc>"@ {
            } else {
            }
        }
    }
    if !text_like_type(t) {
        lemma_first_char_differs(t, "String"@);
        lemma_first_char_differs(t, "&str"@);
        assert(t != "std::string::String"@ && t != "str"@);
        assert(t[0] == 'c' || t[0] == 'D');
        assert(!integer_primitive(t) && !float_primitive(t) && t != "bool"@);
        if t != "chrono::NaiveDate"@ {
            assert(t.len() != "chrono::NaiveDate"@.len() || t[8] != "chrono::NaiveDate"@[8]);
        }
    } else if t != "String"@ && t != "std::string::String"@ && t != "&str"@ && t != "str"@ {
        assert(t == "bool"@);
        assert(t[0] == 'b');
        assert(!integer_primitive(t) && !float_primitive(t));
    }
    lemma_plain_and_optional(t);
}

/// Only the listed types are supported: a field whose type, without spaces
/// and `Option<..>`, is none of the integer and float primitives, the
/// string types, `bool`, `chrono::NaiveDate` or the `chrono` date-times has
/// no field type, and deriving refuses it.
pub proof fn lemma_unlisted_types_refused(t: Seq<char>)
    requires
        !integer_primitive(judged_type(t)),
        !float_primitive(judged_type(t)),
        !text_like_type(judged_type(t)),
        judged_type(t) != "chrono::NaiveDate"@,
        !date_time_type(judged_type(t)),
    ensures
        field_type_of(t) is None,
{
}

/// In a derived schema, a field declared with an integer primitive type
/// (plain or in `Option<..>`) is recorded as an integer and one declared
/// with `f32` or `f64` as a decimal, optional exactly when in `Option<..>`.
pub proof fn lemma_derived_numeric_fields(
    name: Seq<char>,
    fields: Seq<(Seq<char>, Seq<char>)>,
    result: Result<EventSchemaDef, DeriveEventError>,
    k: int,
    t: Seq<char>,
)
    requires
        derive_outcome(name, DeclaredShapeView::NamedFields(fields), result),
        result is Ok,
        0 <= k < fields.len(),
        integer_primitive(t) || float_primitive(t),
        fields[k].1 == t || fields[k].1 == "Option<"@ + t + ">"@,
    ensures
        result->Ok_0@.fields[k] == (
            fields[k].0,
            if float_primitive(t) { FieldType::Decimal } else { FieldType::Integer },
            fields[k].1 != t,
        ),
{
    reveal_strlit("Option<");
    reveal_strlit(">");
    reveal_strlit("f32");
    reveal_strlit("f64");
    assert(fields[k].1 != t ==> fields[k].1.len() != t.len());
    if !supported_up_to(fields, fields.len() as int) {
        let j = choose|j: int| {
            &&& 0 <= j < fields.len()
            &&& supported_up_to(fields, j)
            &&& (#[trigger] field_type_of(fields[j].1)) is None
            &&& result matches Err(DeriveEventError::UnsupportedFieldType(x)) && x@ == judged_type(fields[j].1)
        };
        assert(false);
    }
    if float_primitive(t) {
        lemma_float_primitives_are_decimals(t);
    } else {
        lemma_integer_primitives_are_integers(t);
    }
    assert(result->Ok_0@.fields[k] == field_key(fields[k]));
}

/// What `syn` reads from the source text of an item that derives `Event`:
/// the item's name and its shape, each named field with its type as
/// `quote` prints it; nothing when the text is not a struct, enum or union.
pub uninterp spec fn derive_input_of(text: Seq<char>) -> Option<(Seq<char>, DeclaredShapeView)>;

/// Calls `syn::parse_str::<syn::DeriveInput>` on the item's text and reads
/// off its name and shape: the `Data` and `Fields` variants, and for each
/// named field its name and its type's tokens as text.
#[verifier::external_body]
fn parse_derive_input(text: &str) -> (result: Option<(String, DeclaredShape)>)
    ensures
        match result {
            Some((n, s)) => derive_input_of(text@) == Some((n@, s@)),
            None => derive_input_of(text@) is None,
        },
{
    let ast = match syn::parse_str::<syn::DeriveInput>(text) { Ok(ast) => ast, Err(_) => return None };
    let shape = match ast.data {
        syn::Data::Struct(s) => match s.fields {
            syn::Fields::Named(n) => DeclaredShape::NamedFields(n.named.iter().map(|f| DeclaredField {
                name: f.ident.to_token_stream().to_string(), type_text: f.ty.to_token_stream().to_string() }).collect()),
            syn::Fields::Unnamed(_) => DeclaredShape::UnnamedFields,
            syn::Fields::Unit => DeclaredShape::UnnamedFields,
        },
        syn::Data::Enum(_) => DeclaredShape::NotAStruct,
        syn::Data::Union(_) => DeclaredShape::NotAStruct,
    };
    Some((ast.ident.to_string(), shape))
}

/// The schema that `#[derive(Event)]` records for the item whose source text
/// is `text`: text that is not a struct, enum or union is refused; otherwise
/// the item's name and shape decide as `derive_event_schema` does.
pub fn derive_event_from_source(text: &str) -> (result: Result<EventSchemaDef, DeriveEventError>)
    ensures
        match derive_input_of(text@) {
            None => result == Err::<EventSchemaDef, DeriveEventError>(DeriveEventError::NotAnItem),
            Some((name, shape)) => derive_outcome(name, shape, result),
        },
{
    match parse_derive_input(text) {
        None => Err(DeriveEventError::NotAnItem),
        Some((name, shape)) => derive_event_schema(name.as_str(), &shape),
    }
}

} // verus!
