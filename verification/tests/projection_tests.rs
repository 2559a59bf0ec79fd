use event_sourcing::projection::codegen::{GeneratedField, GeneratedStruct, RustFieldType};
use event_sourcing::projection::definition::HandlerFrom;
use event_sourcing::projection::language::{
    literal_token, query_alias_at, Delimiter, FieldDecl, HandlerDecl, OperationDecl, ParseError, ProjectionInput,
    QuerySpec, Token,
};
use event_sourcing::{
    build_definition, definition_of, evaluate_path, generated_layout, is_numeric_field,
    parse_projection_tokens, to_pascal_case, EventType, F64Bits, FieldSpec, HandlerSpec,
    ObjectFieldSpecBuilder, ProjectionDefinition, ProjectionError, ScalarFieldSpec, ScalarFieldSpecBuilder,
    Tag, TagFilter,
};
use indexmap::IndexMap;

/// Splits projection source text into tokens: identifiers, string literals,
/// other literals, delimiters and one token per punctuation character.
fn lex(src: &str) -> Vec<Token> {
    let chars: Vec<char> = src.chars().collect();
    let mut out = Vec::new();
    let mut i = 0;
    while i < chars.len() {
        let c = chars[i];
        if c.is_whitespace() {
            i += 1;
        } else if c.is_alphabetic() || c == '_' {
            let start = i;
            while i < chars.len() && (chars[i].is_alphanumeric() || chars[i] == '_') {
                i += 1;
            }
            out.push(Token::Ident(chars[start..i].iter().collect()));
        } else if c.is_ascii_digit() {
            let start = i;
            while i < chars.len() && chars[i].is_ascii_alphanumeric() {
                i += 1;
            }
            out.push(Token::Lit(chars[start..i].iter().collect()));
        } else if c == '"' {
            let start = i + 1;
            i = start;
            while chars[i] != '"' {
                i += 1;
            }
            out.push(Token::Str(chars[start..i].iter().collect()));
            i += 1;
        } else {
            out.push(match c {
                '(' => Token::Open(Delimiter::Parenthesis),
                ')' => Token::Close(Delimiter::Parenthesis),
                '{' => Token::Open(Delimiter::Brace),
                '}' => Token::Close(Delimiter::Brace),
                '[' => Token::Open(Delimiter::Bracket),
                ']' => Token::Close(Delimiter::Bracket),
                other => Token::Punct(other),
            });
            i += 1;
        }
    }
    out
}

fn parse(src: &str) -> ProjectionInput {
    parse_projection_tokens(&lex(src)).unwrap()
}

fn definition(src: &str) -> ProjectionDefinition {
    build_definition(&parse(src)).unwrap()
}

fn json(text: &str) -> serde_json::Value {
    serde_json::from_str(text).unwrap()
}

fn customer_query() -> TagFilter {
    TagFilter::StartsWith("customer:".into())
}

#[test]
fn projection_macro_generates_struct() {
    let def = definition(
        r#"projection Foo {
            query tag.starts_with("foo:") as f

            name: f.Created.name
        }"#,
    );
    assert_eq!(def.name, "Foo");
}

#[test]
fn projection_macro_optional_field() {
    let def = definition(
        r#"projection Bar {
            query tag.starts_with("bar:") as b

            required_name: b.Created.name
            optional_name?: b.Renamed.name
        }"#,
    );
    let fields = &def.fields;
    match fields.get("required_name").unwrap() {
        FieldSpec::Scalar(s) => assert!(s.required, "required_name should be required"),
        _ => panic!("expected scalar"),
    }
    match fields.get("optional_name").unwrap() {
        FieldSpec::Scalar(s) => assert!(!s.required, "optional_name should not be required"),
        _ => panic!("expected scalar"),
    }
}

#[test]
fn projection_macro_object_field() {
    let def = definition(
        r#"projection Baz {
            query tag.starts_with("baz:") as b

            address? {
                city:        b.Created.city
                postal_code: b.Created.postal_code
            }
        }"#,
    );
    match def.fields.get("address").unwrap() {
        FieldSpec::Object(o) => {
            assert!(o.fields.contains_key("city"), "should have city sub-field");
            assert!(o.fields.contains_key("postal_code"), "should have postal_code sub-field");
        }
        _ => panic!("expected object field spec"),
    }
}

#[test]
fn projection_macro_cleared_by() {
    let def = definition(
        r#"projection Qux {
            query tag.starts_with("qux:") as q

            address? {
                city: q.Created.city
            } cleared_by q.AddressCleared
        }"#,
    );
    match def.fields.get("address").unwrap() {
        FieldSpec::Object(o) => {
            assert_eq!(o.cleared_by.len(), 1, "cleared_by should have 1 entry");
            assert_eq!(o.cleared_by[0].as_str(), "AddressCleared", "cleared_by should be AddressCleared");
        }
        _ => panic!("expected object field spec"),
    }
}

const CUSTOMER_VIEW: &str = r#"projection CustomerViewMacro {
    query tag.starts_with("customer:") as c

    name:  c.CustomerRegistered.name
         | c.CustomerRenamed.name

    accountant_name?:  c.AccountantAssigned.name
                     | c.AccountantRemoved = null

    address? {
        city:        c.CustomerRegistered.city
                   | c.AddressChanged.city
        postal_code: c.CustomerRegistered.postal_code
                   | c.AddressChanged.postal_code
    } cleared_by c.AddressCleared
}"#;

#[test]
fn projection_macro_definition_matches_builder() {
    let via_macro = definition(CUSTOMER_VIEW);

    let via_builder =
        ProjectionDefinition::builder("CustomerViewMacro", TagFilter::StartsWith("customer:".to_string()))
            .scalar(
                "name",
                ScalarFieldSpecBuilder::new()
                    .required()
                    .on("CustomerRegistered", HandlerSpec::from_path("$.name"))
                    .on("CustomerRenamed", HandlerSpec::from_path("$.name"))
                    .build(),
            )
            .scalar(
                "accountant_name",
                ScalarFieldSpecBuilder::new()
                    .on("AccountantAssigned", HandlerSpec::from_path("$.name"))
                    .on("AccountantRemoved", HandlerSpec::value(serde_json::Value::Null))
                    .build(),
            )
            .object(
                "address",
                ObjectFieldSpecBuilder::new()
                    .cleared_by("AddressCleared")
                    .field(
                        "city",
                        ScalarFieldSpecBuilder::new()
                            .on("CustomerRegistered", HandlerSpec::from_path("$.city"))
                            .on("AddressChanged", HandlerSpec::from_path("$.city"))
                            .build(),
                    )
                    .field(
                        "postal_code",
                        ScalarFieldSpecBuilder::new()
                            .on("CustomerRegistered", HandlerSpec::from_path("$.postal_code"))
                            .on("AddressChanged", HandlerSpec::from_path("$.postal_code"))
                            .build(),
                    )
                    .build(),
            )
            .build();

    assert_eq!(via_macro, via_builder, "macro-generated definition should equal manually built definition");
}

#[test]
fn generated_structs_of_customer_view() {
    let layout = generated_layout(&parse(CUSTOMER_VIEW));
    assert_eq!(
        layout.companions,
        vec![GeneratedStruct {
            name: "CustomerViewMacroAddress".to_string(),
            fields: vec![
                GeneratedField { name: "city".to_string(), field_type: RustFieldType::OptionalText },
                GeneratedField { name: "postal_code".to_string(), field_type: RustFieldType::OptionalText },
            ],
        }]
    );
    assert_eq!(layout.main.name, "CustomerViewMacro");
    assert_eq!(
        layout.main.fields,
        vec![
            GeneratedField { name: "name".to_string(), field_type: RustFieldType::Text },
            GeneratedField { name: "accountant_name".to_string(), field_type: RustFieldType::OptionalText },
            GeneratedField {
                name: "address".to_string(),
                field_type: RustFieldType::OptionalNested("CustomerViewMacroAddress".to_string()),
            },
        ]
    );
}

#[test]
fn numeric_fields_and_increments() {
    let src = r#"projection Ledger {
        query tag.equals("account:1") as a
        balance: |+ a.Deposited.amount |- a.Withdrawn.amount
        last_note?: a.Noted.text.body | a.Cleared = "none"
        box_ { total: |+ a.Deposited.amount.value }
    }"#;
    let input = parse(src);
    assert_eq!(input.query, QuerySpec::Equals("account:1".to_string()));
    match &input.fields[0] {
        FieldDecl::Scalar { name, optional, handlers } => {
            assert_eq!(name, "balance");
            assert!(!optional);
            assert_eq!(
                handlers,
                &vec![
                    HandlerDecl {
                        event_type: "Deposited".to_string(),
                        operation: OperationDecl::IncrementBy("$.amount".to_string()),
                    },
                    HandlerDecl {
                        event_type: "Withdrawn".to_string(),
                        operation: OperationDecl::DecrementBy("$.amount".to_string()),
                    },
                ]
            );
            assert!(is_numeric_field(handlers));
        }
        other => panic!("expected a scalar field, got {:?}", other),
    }
    let layout = generated_layout(&input);
    assert_eq!(layout.main.fields[0].field_type, RustFieldType::Number);
    assert_eq!(layout.main.fields[1].field_type, RustFieldType::OptionalText);
    assert_eq!(layout.main.fields[2].field_type, RustFieldType::Nested("LedgerBox".to_string()));
    assert_eq!(layout.companions[0].fields[0].field_type, RustFieldType::OptionalNumber);

    let def = definition(src);
    assert_eq!(def.query, TagFilter::Equals(Tag::new("account:1").unwrap()));
    match def.fields.get("last_note").unwrap() {
        FieldSpec::Scalar(s) => {
            assert!(!s.required);
            assert_eq!(s.events.get("Noted"), Some(&HandlerSpec::from_path("$.text.body")));
            assert_eq!(s.events.get("Cleared"), Some(&HandlerSpec::value(serde_json::Value::String("none".to_string()))));
        }
        _ => panic!("expected scalar"),
    }
    match def.fields.get("balance").unwrap() {
        FieldSpec::Scalar(s) => {
            assert!(s.required);
            assert_eq!(s.events.get("Deposited"), Some(&HandlerSpec::increment_by("$.amount")));
            assert_eq!(s.events.get("Withdrawn"), Some(&HandlerSpec::decrement_by("$.amount")));
        }
        _ => panic!("expected scalar"),
    }
}

#[test]
fn later_handler_of_same_event_replaces_earlier_in_place() {
    let def = definition(
        r#"projection P { query tag.ends_with(":x") as p
            v: p.A.first | p.B.second | p.A.third }"#,
    );
    match def.fields.get("v").unwrap() {
        FieldSpec::Scalar(s) => {
            let keys: Vec<&str> = s.events.keys().map(String::as_str).collect();
            assert_eq!(keys, vec!["A", "B"]);
            assert_eq!(s.events.get("A"), Some(&HandlerSpec::from_path("$.third")));
        }
        _ => panic!("expected scalar"),
    }
}

#[test]
fn definition_refused_where_building_it_would_fail() {
    let empty_tag = parse(r#"projection P { query tag.equals("") as p v: p.A.x }"#);
    assert!(build_definition(&empty_tag).is_none());

    let conflict = parse(
        r#"projection P { query tag.starts_with("p:") as p
            o? { s: p.Cleared.value } cleared_by p.Cleared }"#,
    );
    assert!(build_definition(&conflict).is_none());

    let fine = parse(
        r#"projection P { query tag.starts_with("p:") as p
            o? { s: p.Set.value } cleared_by p.Cleared }"#,
    );
    let def = build_definition(&fine).unwrap();
    assert_eq!(def, definition_of(&fine));
}

#[test]
fn parse_errors_name_the_position() {
    assert_eq!(
        parse_projection_tokens(&lex(r#"view P { }"#)),
        Err(ParseError::ExpectedKeyword { at: 0, keyword: event_sourcing::projection::language::Keyword::Projection })
    );
    assert_eq!(
        parse_projection_tokens(&lex(r#"projection P { query tag.contains("x") as p }"#)),
        Err(ParseError::ExpectedTagMethod { at: 6 })
    );
    assert_eq!(
        parse_projection_tokens(&lex(r#"projection P { query tag.starts_with("x") as p v: q.A.b }"#)),
        Err(ParseError::HandlerAliasMismatch { at: 14 })
    );
    assert_eq!(
        parse_projection_tokens(&lex(r#"projection P { query tag.starts_with("x") as p v: p.A = 3 }"#)),
        Err(ParseError::ExpectedIdent { at: 18 })
    );
    assert_eq!(
        parse_projection_tokens(&lex(r#"projection P { query tag.starts_with("x") as p } extra"#)),
        Err(ParseError::UnexpectedToken { at: 13 })
    );
    assert_eq!(
        parse_projection_tokens(&lex(r#"projection P { query tag.starts_with("x") as p o { s: p.A.b } cleared_by z.C }"#)),
        Err(ParseError::ClearedByAliasMismatch { at: 23 })
    );
}

#[test]
fn to_pascal_case_joins_words() {
    assert_eq!(to_pascal_case("postal_code"), "PostalCode");
    assert_eq!(to_pascal_case("address"), "Address");
    assert_eq!(to_pascal_case("_leading__double_"), "LeadingDouble");
    assert_eq!(to_pascal_case(""), "");
    assert_eq!(to_pascal_case("x1_y2"), "X1Y2");
}

#[test]
fn insertion_order_preserved() {
    let def = ProjectionDefinition::builder("Test", customer_query())
        .scalar("z", ScalarFieldSpecBuilder::new().on("E", HandlerSpec::from_path("$.z")).build())
        .scalar("a", ScalarFieldSpecBuilder::new().on("E", HandlerSpec::from_path("$.a")).build())
        .scalar("m", ScalarFieldSpecBuilder::new().on("E", HandlerSpec::from_path("$.m")).build())
        .build();
    let keys: Vec<&str> = def.fields.keys().map(String::as_str).collect();
    assert_eq!(keys, vec!["z", "a", "m"]);
}

#[test]
fn builder_produces_equivalent_to_manual() {
    let via_builder = ProjectionDefinition::builder("OrderSummary", customer_query())
        .scalar(
            "total",
            ScalarFieldSpecBuilder::new().required().on("OrderPlaced", HandlerSpec::from_path("$.total")).build(),
        )
        .build();

    let mut events: IndexMap<EventType, HandlerSpec> = IndexMap::new();
    events.insert(EventType::from("OrderPlaced"), HandlerSpec::From(HandlerFrom { from: "$.total".to_owned() }));
    let mut fields: IndexMap<String, FieldSpec> = IndexMap::new();
    fields.insert("total".to_owned(), FieldSpec::Scalar(ScalarFieldSpec { required: true, default: None, events }));
    let manual = ProjectionDefinition { name: "OrderSummary".to_owned(), query: customer_query(), fields };

    assert_eq!(via_builder, manual);
}

#[test]
fn builder_refuses_invalid_path() {
    let result = ScalarFieldSpecBuilder::new().try_on("SomeEvent", HandlerSpec::from_path("not-a-valid-path"));
    match result {
        Err((builder, handler)) => {
            assert!(builder.events.is_empty());
            assert_eq!(handler, HandlerSpec::from_path("not-a-valid-path"));
        }
        Ok(_) => panic!("expected the invalid path to be refused"),
    }
    let ok = ScalarFieldSpecBuilder::new().try_on("E", HandlerSpec::increment(F64Bits(5.0f64.to_bits())));
    assert!(ok.is_ok());
}

#[test]
fn object_builder_reports_ambiguous_clearing_event() {
    let builder = ObjectFieldSpecBuilder::new()
        .cleared_by("Reset")
        .field("a", ScalarFieldSpecBuilder::new().on("Set", HandlerSpec::from_path("$.a")).build())
        .field("b", ScalarFieldSpecBuilder::new().on("Reset", HandlerSpec::from_path("$.b")).build());
    let conflict = builder.try_build().unwrap_err();
    assert_eq!(conflict.event_type, "Reset");
    assert_eq!(conflict.sub_field, "b");

    let spec = ObjectFieldSpecBuilder::new()
        .cleared_by("Reset")
        .field("a", ScalarFieldSpecBuilder::new().default_value(serde_json::Value::Bool(true)).build())
        .try_build()
        .unwrap();
    assert_eq!(spec.field_type, "object");
    assert_eq!(spec.fields.get("a").unwrap().default, Some(serde_json::Value::Bool(true)));
}

#[test]
fn path_simple_field() {
    let payload = json(r#"{"amount": 42}"#);
    assert_eq!(evaluate_path(&payload, "$.amount"), Some(serde_json::Value::from(42)));
}

#[test]
fn path_nested() {
    let payload = json(r#"{"address": {"city": "London"}}"#);
    assert_eq!(evaluate_path(&payload, "$.address.city"), Some(serde_json::Value::from("London")));
}

#[test]
fn path_missing_field() {
    let payload = json(r#"{"x": 1}"#);
    assert_eq!(evaluate_path(&payload, "$.y"), None);
}

#[test]
fn path_null_value() {
    let payload = json(r#"{"name": null}"#);
    assert_eq!(evaluate_path(&payload, "$.name"), Some(serde_json::Value::Null));
}

#[test]
fn path_invalid_expression() {
    let payload = json(r#"{"x": 1}"#);
    assert_eq!(evaluate_path(&payload, "not-a-path"), None);
}

#[test]
fn projection_error_display() {
    let et = EventType::from("CustomerRegistered");

    let e = ProjectionError::UnknownEventType(et.clone());
    assert!(e.message().contains("CustomerRegistered"), "UnknownEventType display: {}", e.message());

    let e = ProjectionError::FieldNotFound { event_type: et.clone(), path: "$.name".to_owned() };
    let s = e.message();
    assert!(s.contains("$.name"), "FieldNotFound display missing path: {}", s);
    assert!(s.contains("CustomerRegistered"), "FieldNotFound display missing event_type: {}", s);

    let deserialization_error: serde_json::Error = serde_json::from_str::<serde_json::Value>("not-json").unwrap_err();
    let e = ProjectionError::DeserializationFailed(deserialization_error);
    assert!(e.message().contains("deserialization failed"), "DeserializationFailed display: {}", e.message());

    let e = ProjectionError::TypeMismatch { field: "count".to_owned(), actual: "String".to_owned() };
    let s = e.message();
    assert!(s.contains("count"), "TypeMismatch display missing field: {}", s);
    assert!(s.contains("String"), "TypeMismatch display missing actual: {}", s);
}

#[test]
fn projection_error_messages_in_full() {
    assert_eq!(
        ProjectionError::InvalidPath { path: "$[".to_string() }.message(),
        "invalid JSON path expression '$['"
    );
    assert_eq!(
        ProjectionError::FieldNotFound { event_type: "E".to_string(), path: "$.a".to_string() }.message(),
        "json path '$.a' not found in payload for event type 'E'"
    );
    let err = serde_json::from_str::<serde_json::Value>("{").unwrap_err();
    let text = err.to_string();
    let e: ProjectionError = err.into();
    assert_eq!(e.message(), format!("deserialization failed: {}", text));
}

#[test]
fn literal_tokens_by_their_value() {
    assert_eq!(literal_token(r#""foo:""#), Token::Str("foo:".to_string()));
    assert_eq!(literal_token(r#""a\"b\n""#), Token::Str("a\"b\n".to_string()));
    assert_eq!(literal_token("42"), Token::Lit("42".to_string()));
    assert_eq!(literal_token("'c'"), Token::Lit("'c'".to_string()));
}

#[test]
fn query_alias_is_found_after_the_query() {
    let tokens = lex(r#"projection P { query tag.starts_with("x") as p v: q.A.b }"#);
    assert_eq!(query_alias_at(&tokens), Some(11));
    assert_eq!(tokens[11], Token::Ident("p".to_string()));
    assert_eq!(query_alias_at(&lex(r#"projection P { query tag.starts_with("x") v: p.A.b }"#)), None);
    assert_eq!(query_alias_at(&lex(r#"view P { }"#)), None);
}
