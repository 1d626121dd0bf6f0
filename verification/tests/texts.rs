use subgraph_extraction::error::FederationError;
use subgraph_extraction::names::graphql_name;
use subgraph_extraction::schema::{
    ArgValue, Directive, DirectiveDefinition, DirectiveLocation, EnumValue, Field, InputValue,
    Schema, TypeDefinition, TypeKind, TypeRef,
};
use subgraph_extraction::text::{
    concat3, contains_char, starts_with, str_eq, str_lt, u32_text,
};
use subgraph_extraction::type_text::{decode_type, decode_type_from};
use subgraph_extraction::validation::{check_diagnostics, validate_subgraph};

#[test]
fn strings_compare_as_in_the_standard_library() {
    let samples = ["", "a", "ab", "b", "B", "aa", "é", "z", "ab ", "\u{10FFFF}"];
    for x in samples {
        for y in samples {
            assert_eq!(str_lt(x, y), x < y, "{:?} < {:?}", x, y);
            assert_eq!(str_eq(x, y), x == y);
            assert_eq!(starts_with(x, y), x.starts_with(y));
        }
    }
    assert!(contains_char("a}b", '}'));
    assert!(!contains_char("ab", '}'));
    assert_eq!(concat3("a", "", "bc"), "abc");
}

#[test]
fn numbers_are_written_in_decimal() {
    for n in [0u32, 1, 9, 10, 11, 99, 100, 12345, 4294967295] {
        assert_eq!(u32_text(n), n.to_string());
    }
}

#[test]
fn type_expressions_are_decoded() {
    assert_eq!(decode_type("Int"), Ok(TypeRef::named("Int")));
    assert_eq!(decode_type("Int!"), Ok(TypeRef::non_null("Int")));
    assert_eq!(decode_type("[Int]"), Ok(TypeRef::named("Int").list(false)));
    assert_eq!(decode_type("[Int!]!"), Ok(TypeRef::non_null("Int").list(true)));
    assert_eq!(decode_type(" [ [ Foo ! ] ] ! "), Ok(TypeRef::non_null("Foo").list(false).list(true)));
    assert_eq!(
        decode_type("[[[A]!]]"),
        Ok(TypeRef { name: "A".to_string(), non_null: false, lists: vec![false, false, true] })
    );
}

#[test]
fn a_text_with_a_brace_or_a_colon_is_no_type() {
    for text in ["Int }", "a: Int", "}", ":"] {
        assert_eq!(
            decode_type(text),
            Err(FederationError::InvalidGraphQL { message: format!("Cannot parse type \"{}\"", text) })
        );
        assert_eq!(
            decode_type_from(text, Some(TypeRef::named("Int"))),
            Err(FederationError::InvalidGraphQL { message: format!("Cannot parse type \"{}\"", text) })
        );
    }
    assert_eq!(
        decode_type(""),
        Err(FederationError::InvalidGraphQL { message: "Cannot parse type \"\"".to_string() })
    );
    assert_eq!(decode_type_from("Int", Some(TypeRef::non_null("X"))), Ok(TypeRef::non_null("X")));
    assert_eq!(
        decode_type_from("Int", None),
        Err(FederationError::InvalidGraphQL { message: "Cannot parse type \"Int\"".to_string() })
    );
}

fn small_schema() -> Schema {
    let mut schema = Schema::new();
    let mut link = Directive::new("link").with_string("url", "https://x/y/v1.0");
    link.extension = true;
    schema.directives = vec![link];
    schema.query_type = Some("Query".to_string());
    let mut key = Directive::new("key").with_string("fields", "a \"b\"\\\n").with_bool("resolvable", true);
    key.extension = true;
    let mut limit = InputValue::new("limit", TypeRef::non_null("Int").list(true));
    limit.default_value = Some("[1]".to_string());
    schema.types = vec![
        TypeDefinition::new(TypeKind::Scalar, "Date"),
        TypeDefinition::new(TypeKind::Interface, "Node")
            .with_field(Field::new("id", TypeRef::non_null("ID"))),
        TypeDefinition::new(TypeKind::Object, "Query")
            .with_interface("Node")
            .with_interface("Other")
            .with_directive(Directive::new("tag").with_enum("kind", "A"))
            .with_directive(key)
            .with_field(Field::new("id", TypeRef::non_null("ID")))
            .with_field(
                Field::new("items", TypeRef::named("Item").list(false))
                    .with_argument(limit)
                    .with_argument(InputValue::new("after", TypeRef::named("String")))
                    .with_directive(Directive::new("deprecated")),
            ),
        TypeDefinition::new(TypeKind::Union, "Item").with_member("Query").with_member("Other"),
        TypeDefinition::new(TypeKind::Enum, "Color")
            .with_value(EnumValue::new("RED"))
            .with_value(EnumValue::new("BLUE").with_directive(Directive::new("deprecated"))),
        TypeDefinition::new(TypeKind::InputObject, "Page")
            .with_input_field(InputValue::new("size", TypeRef::named("Int"))),
    ];
    schema.directive_definitions = vec![DirectiveDefinition::new(
        "tag",
        vec![InputValue::new("kind", TypeRef::named("Color"))],
        true,
        vec![DirectiveLocation::Object, DirectiveLocation::FieldDefinition],
    )];
    let _ = ArgValue::Bool(true);
    schema
}

#[test]
fn a_schema_is_written_as_a_document() {
    let expected = "schema {\n  query: Query\n}\n\
extend schema @link(url: \"https://x/y/v1.0\")\n\
scalar Date\n\
interface Node {\n  id: ID!\n}\n\
type Query implements Node & Other @tag(kind: A) {\n  id: ID!\n  items(limit: [Int!]! = [1], after: String): [Item] @deprecated\n}\n\
extend type Query @key(fields: \"a \\\"b\\\"\\\\\\n\", resolvable: true)\n\
union Item = Query | Other\n\
enum Color {\n  RED\n  BLUE @deprecated\n}\n\
input Page {\n  size: Int\n}\n\
directive @tag(kind: Color) repeatable on OBJECT | FIELD_DEFINITION\n";
    assert_eq!(small_schema().to_sdl(), expected);
    assert_eq!(Schema::new().to_sdl(), "");
}

#[test]
fn validation_reports_what_is_wrong_with_a_document() {
    assert_eq!(validate_subgraph("a", "type Query { x: Int }"), Ok(()));
    match validate_subgraph("a", "type Query { x: Missing }") {
        Err(FederationError::InvalidFederationSupergraph { message }) => {
            assert!(message.starts_with("Unexpected error extracting a from the supergraph: this is either a bug, or the supergraph has been corrupted.\n\nDetails:\n"));
            assert!(message.contains("Missing"));
        },
        other => panic!("expected a validation failure, got {:?}", other),
    }
    assert!(validate_subgraph("a", "type Query {").is_err());
    assert_eq!(check_diagnostics("a", None), Ok(()));
    assert_eq!(
        check_diagnostics("svc", Some("boom".to_string())),
        Err(FederationError::InvalidFederationSupergraph {
            message: "Unexpected error extracting svc from the supergraph: this is either a bug, or the supergraph has been corrupted.\n\nDetails:\nboom".to_string()
        })
    );
}

#[test]
fn names_are_letters_digits_and_underscores() {
    for text in ["a", "_", "A1", "_9", "join__Graph", "Zz_09"] {
        assert_eq!(graphql_name(text), Ok(text.to_string()));
    }
    for text in ["", "1a", "a-b", "a b", "é", "aé", "a.b", "[A]", "A!", " A"] {
        assert_eq!(
            graphql_name(text),
            Err(FederationError::InvalidGraphQL {
                message: format!("Invalid GraphQL name \"{}\"", text)
            })
        );
    }
}
