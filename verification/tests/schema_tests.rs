use event_sourcing::{
    derive_event_from_source, derive_event_schema, map_rust_type_to_field_type, DeclaredField, DeclaredShape,
    DeriveEventError, Event, EventSchemaDef, EventType, FieldDef, FieldType,
};

fn make_event_type(s: &str) -> EventType {
    EventType::from(s)
}

fn field_def(name: &str, field_type: FieldType, optional: bool) -> FieldDef {
    FieldDef { name: name.to_owned(), field_type, optional }
}

fn declared(fields: &[(&str, &str)]) -> DeclaredShape {
    DeclaredShape::NamedFields(
        fields
            .iter()
            .map(|(name, ty)| DeclaredField { name: name.to_string(), type_text: ty.to_string() })
            .collect(),
    )
}

#[test]
fn is_compatible_with_true_when_equal() {
    let a = EventSchemaDef {
        event_type: make_event_type("Foo"),
        fields: vec![field_def("x", FieldType::Integer, false)],
    };
    let b = a.clone();
    assert!(a.is_compatible_with(&b));
}

#[test]
fn is_compatible_with_true_when_fields_reordered() {
    let a = EventSchemaDef {
        event_type: make_event_type("Foo"),
        fields: vec![field_def("x", FieldType::Integer, false), field_def("y", FieldType::String, false)],
    };
    let b = EventSchemaDef {
        event_type: make_event_type("Foo"),
        fields: vec![field_def("y", FieldType::String, false), field_def("x", FieldType::Integer, false)],
    };
    assert!(a.is_compatible_with(&b));
}

#[test]
fn is_compatible_with_false_when_field_added() {
    let a = EventSchemaDef {
        event_type: make_event_type("Foo"),
        fields: vec![field_def("x", FieldType::Integer, false)],
    };
    let b = EventSchemaDef {
        event_type: make_event_type("Foo"),
        fields: vec![field_def("x", FieldType::Integer, false), field_def("extra", FieldType::String, false)],
    };
    assert!(!a.is_compatible_with(&b));
}

#[test]
fn is_compatible_with_false_when_field_type_changed() {
    let a = EventSchemaDef {
        event_type: make_event_type("Foo"),
        fields: vec![field_def("x", FieldType::Integer, false)],
    };
    let b = EventSchemaDef {
        event_type: make_event_type("Foo"),
        fields: vec![field_def("x", FieldType::String, false)],
    };
    assert!(!a.is_compatible_with(&b));
}

#[test]
fn is_compatible_with_false_when_event_type_differs() {
    let a = EventSchemaDef { event_type: make_event_type("Foo"), fields: vec![] };
    let b = EventSchemaDef { event_type: make_event_type("Bar"), fields: vec![] };
    assert!(!a.is_compatible_with(&b));
}

#[test]
fn is_compatible_with_false_when_optional_changed() {
    let a = EventSchemaDef {
        event_type: make_event_type("Foo"),
        fields: vec![field_def("x", FieldType::String, false)],
    };
    let b = EventSchemaDef {
        event_type: make_event_type("Foo"),
        fields: vec![field_def("x", FieldType::String, true)],
    };
    assert!(!a.is_compatible_with(&b));
}

#[test]
fn compatibility_ignores_repeated_fields_and_is_symmetric() {
    let a = EventSchemaDef {
        event_type: make_event_type("Foo"),
        fields: vec![field_def("x", FieldType::Date, false), field_def("x", FieldType::Date, false)],
    };
    let b = EventSchemaDef { event_type: make_event_type("Foo"), fields: vec![field_def("x", FieldType::Date, false)] };
    assert!(a.is_compatible_with(&b));
    assert!(b.is_compatible_with(&a));
}

#[test]
fn event_trait_manual_impl_compiles() {
    struct Foo;

    impl Event for Foo {
        fn event_type() -> &'static str {
            "Foo"
        }

        fn schema() -> EventSchemaDef {
            EventSchemaDef {
                event_type: EventType::from("Foo"),
                fields: vec![field_def("id", FieldType::String, false), field_def("count", FieldType::Integer, false)],
            }
        }
    }

    assert_eq!(Foo::event_type(), "Foo");
    assert_eq!(Foo::schema().fields.len(), 2);
}

struct OrderPlaced;

impl Event for OrderPlaced {
    fn event_type() -> &'static str {
        "OrderPlaced"
    }

    fn schema() -> EventSchemaDef {
        derive_event_from_source("struct OrderPlaced { order_id: String, amount: f64, item_count: i32, }").unwrap()
    }
}

#[test]
fn derive_event_basic_struct() {
    assert_eq!(OrderPlaced::event_type(), "OrderPlaced");
    let schema: EventSchemaDef = OrderPlaced::schema();
    assert_eq!(schema.event_type.as_str(), "OrderPlaced");
    assert_eq!(schema.fields.len(), 3);

    let order_id_field = schema.fields.iter().find(|f| f.name == "order_id").unwrap();
    assert_eq!(order_id_field.field_type, FieldType::String);
    assert!(!order_id_field.optional);

    let amount_field = schema.fields.iter().find(|f| f.name == "amount").unwrap();
    assert_eq!(amount_field.field_type, FieldType::Decimal);
    assert!(!amount_field.optional);

    let item_count_field = schema.fields.iter().find(|f| f.name == "item_count").unwrap();
    assert_eq!(item_count_field.field_type, FieldType::Integer);
    assert!(!item_count_field.optional);
}

struct CustomerRegistered;

impl Event for CustomerRegistered {
    fn event_type() -> &'static str {
        "CustomerRegistered"
    }

    fn schema() -> EventSchemaDef {
        derive_event_from_source("struct CustomerRegistered { name: String, middle_name: Option<String>, }").unwrap()
    }
}

#[test]
fn derive_event_option_field() {
    assert_eq!(CustomerRegistered::event_type(), "CustomerRegistered");
    let schema: EventSchemaDef = CustomerRegistered::schema();
    assert_eq!(schema.fields.len(), 2);

    let name_field = schema.fields.iter().find(|f| f.name == "name").unwrap();
    assert_eq!(name_field.field_type, FieldType::String);
    assert!(!name_field.optional);

    let middle_field = schema.fields.iter().find(|f| f.name == "middle_name").unwrap();
    assert_eq!(middle_field.field_type, FieldType::String);
    assert!(middle_field.optional);
}

struct AllTypesEvent;

impl Event for AllTypesEvent {
    fn event_type() -> &'static str {
        "AllTypesEvent"
    }

    fn schema() -> EventSchemaDef {
        derive_event_schema(
            "AllTypesEvent",
            &declared(&[
                ("str_field", "String"),
                ("int8_field", "i8"),
                ("int16_field", "i16"),
                ("int32_field", "i32"),
                ("int64_field", "i64"),
                ("uint32_field", "u32"),
                ("float32_field", "f32"),
                ("float64_field", "f64"),
                ("opt_str_field", "Option < String >"),
            ]),
        )
        .unwrap()
    }
}

#[test]
fn derive_event_all_supported_types() {
    let schema: EventSchemaDef = AllTypesEvent::schema();
    assert_eq!(schema.fields.len(), 9);

    let get_field = |name: &str| -> &FieldDef { schema.fields.iter().find(|f| f.name == name).unwrap() };

    assert_eq!(get_field("str_field").field_type, FieldType::String);
    assert_eq!(get_field("int8_field").field_type, FieldType::Integer);
    assert_eq!(get_field("int16_field").field_type, FieldType::Integer);
    assert_eq!(get_field("int32_field").field_type, FieldType::Integer);
    assert_eq!(get_field("int64_field").field_type, FieldType::Integer);
    assert_eq!(get_field("uint32_field").field_type, FieldType::Integer);
    assert_eq!(get_field("float32_field").field_type, FieldType::Decimal);
    assert_eq!(get_field("float64_field").field_type, FieldType::Decimal);
    assert_eq!(get_field("opt_str_field").field_type, FieldType::String);
    assert!(get_field("opt_str_field").optional);
}

#[test]
fn field_types_of_written_types() {
    assert_eq!(map_rust_type_to_field_type("& str"), Ok((FieldType::String, false)));
    assert_eq!(map_rust_type_to_field_type("std :: string :: String"), Ok((FieldType::String, false)));
    assert_eq!(map_rust_type_to_field_type("bool"), Ok((FieldType::String, false)));
    assert_eq!(map_rust_type_to_field_type("usize"), Ok((FieldType::Integer, false)));
    assert_eq!(map_rust_type_to_field_type("Option < u128 >"), Ok((FieldType::Integer, true)));
    assert_eq!(map_rust_type_to_field_type("chrono :: NaiveDate"), Ok((FieldType::Date, false)));
    assert_eq!(
        map_rust_type_to_field_type("Option < chrono :: DateTime < chrono :: Utc > >"),
        Ok((FieldType::DateTime, true))
    );
    assert_eq!(map_rust_type_to_field_type("DateTime < Utc >"), Ok((FieldType::DateTime, false)));
}

#[test]
fn unsupported_field_type_is_refused_with_inner_type() {
    assert_eq!(
        map_rust_type_to_field_type("Vec < u8 >"),
        Err(DeriveEventError::UnsupportedFieldType("Vec<u8>".to_string()))
    );
    assert_eq!(
        map_rust_type_to_field_type("Option < Vec < u8 > >"),
        Err(DeriveEventError::UnsupportedFieldType("Vec<u8>".to_string()))
    );
    assert_eq!(
        map_rust_type_to_field_type("Option<>"),
        Err(DeriveEventError::UnsupportedFieldType("".to_string()))
    );
    let e = map_rust_type_to_field_type("char").unwrap_err();
    assert_eq!(
        e.message(),
        "unsupported field type for #[derive(Event)]: `char`. Use String, integer primitive, f32/f64, chrono::NaiveDate, or chrono::DateTime"
    );
}

#[test]
fn derive_refuses_non_structs_and_unnamed_fields() {
    let e = derive_event_schema("Shape", &DeclaredShape::NotAStruct).unwrap_err();
    assert_eq!(e, DeriveEventError::NotAStruct);
    assert_eq!(e.message(), "#[derive(Event)] only supports structs");
    let e = derive_event_schema("Pair", &DeclaredShape::UnnamedFields).unwrap_err();
    assert_eq!(e, DeriveEventError::UnnamedFields);
    assert_eq!(e.message(), "#[derive(Event)] only supports structs with named fields");
}

#[test]
fn derive_reports_first_unsupported_field() {
    let shape = declared(&[("a", "String"), ("b", "HashMap < String , u8 >"), ("c", "Vec<u8>")]);
    assert_eq!(
        derive_event_schema("Odd", &shape),
        Err(DeriveEventError::UnsupportedFieldType("HashMap<String,u8>".to_string()))
    );
    let empty = derive_event_schema("Empty", &declared(&[])).unwrap();
    assert_eq!(empty.event_type, "Empty");
    assert!(empty.fields.is_empty());
}

#[test]
fn compatibility_is_transitive_on_examples() {
    let a = EventSchemaDef {
        event_type: make_event_type("T"),
        fields: vec![field_def("p", FieldType::Decimal, true), field_def("q", FieldType::DateTime, false)],
    };
    let b = EventSchemaDef {
        event_type: make_event_type("T"),
        fields: vec![field_def("q", FieldType::DateTime, false), field_def("p", FieldType::Decimal, true)],
    };
    let c = EventSchemaDef {
        event_type: make_event_type("T"),
        fields: vec![
            field_def("p", FieldType::Decimal, true),
            field_def("q", FieldType::DateTime, false),
            field_def("p", FieldType::Decimal, true),
        ],
    };
    assert!(a.is_compatible_with(&b));
    assert!(b.is_compatible_with(&c));
    assert!(a.is_compatible_with(&c));
    assert!(a.is_compatible_with(&a));
}

#[test]
fn derive_reads_the_item_from_its_source() {
    let schema = derive_event_from_source(
        "#[derive(Debug)] pub struct Moved { pub at: chrono::DateTime<chrono::Utc>, pub note: Option<&'static str>, }",
    );
    assert_eq!(schema, Err(DeriveEventError::UnsupportedFieldType("&'staticstr".to_string())));
    let schema = derive_event_from_source("pub struct Moved { pub at: chrono::DateTime<chrono::Utc>, day: chrono::NaiveDate }")
        .unwrap();
    assert_eq!(schema.event_type, "Moved");
    assert_eq!(
        schema.fields,
        vec![field_def("at", FieldType::DateTime, false), field_def("day", FieldType::Date, false)]
    );
    assert_eq!(derive_event_from_source("enum E { A }"), Err(DeriveEventError::NotAStruct));
    assert_eq!(derive_event_from_source("struct P(u8);"), Err(DeriveEventError::UnnamedFields));
    assert_eq!(derive_event_from_source("struct U;"), Err(DeriveEventError::UnnamedFields));
    let e = derive_event_from_source("fn not_an_item() {}").unwrap_err();
    assert_eq!(e, DeriveEventError::NotAnItem);
    assert_eq!(e.message(), "expected `struct`, `enum` or `union`");
}
