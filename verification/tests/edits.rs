use subgraph_extraction::edits::RootKind;
use subgraph_extraction::error::FederationError;
use subgraph_extraction::extract::{collect_executable_definitions, is_executable};
use subgraph_extraction::federation::new_empty_fed_2_subgraph_schema;
use subgraph_extraction::operations::add_federation_operations;
use subgraph_extraction::prune::remove_unused_types_from_subgraph;
use subgraph_extraction::schema::{
    Directive, DirectiveDefinition, DirectiveLocation, EnumValue, Field, InputValue, Schema,
    TypeDefinition, TypeKind, TypeRef,
};
use subgraph_extraction::subgraphs::FederationSubgraph;

fn internal(message: &str) -> Result<(), FederationError> {
    Err(FederationError::Internal { message: message.to_string() })
}

fn names(schema: &Schema) -> Vec<&str> {
    schema.types.iter().map(|t| t.name.as_str()).collect()
}

#[test]
fn a_shell_is_inserted_once() {
    let mut schema = Schema::new();
    assert_eq!(schema.insert_shell("T", TypeKind::Object, vec![]), Ok(()));
    assert_eq!(schema.types, vec![TypeDefinition::new(TypeKind::Object, "T")]);
    assert_eq!(
        schema.insert_shell("T", TypeKind::Enum, vec![]),
        internal("Type \"T\" already exists in schema")
    );
    assert_eq!(
        schema.insert_shell("String", TypeKind::Scalar, vec![]),
        internal("Type \"String\" already exists in schema")
    );
    assert_eq!(schema.types.len(), 1);
    assert!(schema.defines("T") && schema.defines("ID") && !schema.defines("U"));
    assert!(schema.has_kind("T", TypeKind::Object) && !schema.has_kind("T", TypeKind::Union));
    assert_eq!(schema.find_type("T"), Some(0));
}

#[test]
fn a_field_needs_its_type_its_kind_a_new_name_and_defined_references() {
    let mut schema = Schema::new();
    assert_eq!(schema.insert_shell("T", TypeKind::Object, vec![]), Ok(()));
    assert_eq!(schema.insert_shell("I", TypeKind::Interface, vec![]), Ok(()));
    let f = || Field::new("x", TypeRef::named("Int"));
    assert_eq!(schema.insert_field("U", TypeKind::Object, f()), internal("Schema has no type \"U\""));
    assert_eq!(
        schema.insert_field("T", TypeKind::Interface, f()),
        internal("Schema type \"T\" is not of the expected kind")
    );
    assert_eq!(schema.insert_field("T", TypeKind::Object, f()), Ok(()));
    assert_eq!(
        schema.insert_field("T", TypeKind::Object, f()),
        internal("\"T.x\" already exists in schema")
    );
    assert_eq!(
        schema.insert_field("T", TypeKind::Object, Field::new("y", TypeRef::named("Nope"))),
        internal("\"T.y\" refers to a type that does not exist in schema")
    );
    assert_eq!(
        schema.insert_field(
            "I",
            TypeKind::Interface,
            Field::new("z", TypeRef::named("T"))
                .with_argument(InputValue::new("a", TypeRef::named("Nope")))
        ),
        internal("\"I.z\" refers to a type that does not exist in schema")
    );
    assert_eq!(
        schema.insert_field("I", TypeKind::Interface, Field::new("z", TypeRef::named("T"))),
        Ok(())
    );
    assert_eq!(schema.types[0].fields, vec![f()]);
    assert_eq!(schema.types[1].fields, vec![Field::new("z", TypeRef::named("T"))]);
}

#[test]
fn the_other_members_are_guarded_too() {
    let mut schema = Schema::new();
    for (name, kind) in [
        ("O", TypeKind::Object),
        ("I", TypeKind::Interface),
        ("U", TypeKind::Union),
        ("E", TypeKind::Enum),
        ("P", TypeKind::InputObject),
    ] {
        assert_eq!(schema.insert_shell(name, kind, vec![]), Ok(()));
    }
    assert_eq!(schema.insert_member("U", "O"), Ok(()));
    assert_eq!(schema.insert_member("U", "O"), Ok(()));
    assert_eq!(schema.types[2].members, vec!["O".to_string()]);
    assert_eq!(
        schema.insert_member("U", "I"),
        internal("Union type \"U\"'s member type \"I\" is not an object type")
    );
    assert_eq!(schema.insert_member("O", "O"), internal("Schema type \"O\" is not of the expected kind"));
    assert_eq!(schema.insert_implements("O", TypeKind::Object, "I"), Ok(()));
    assert_eq!(schema.insert_implements("O", TypeKind::Object, "I"), Ok(()));
    assert_eq!(schema.types[0].implements, vec!["I".to_string()]);
    assert_eq!(
        schema.insert_implements("O", TypeKind::Object, "U"),
        internal("Type \"O\" implements \"U\", which is not an interface type")
    );
    assert_eq!(schema.insert_enum_value("E", "A"), Ok(()));
    assert_eq!(schema.insert_enum_value("E", "A"), internal("\"E.A\" already exists in schema"));
    assert_eq!(schema.types[3].values, vec![EnumValue::new("A")]);
    assert_eq!(
        schema.insert_input_field("P", InputValue::new("a", TypeRef::named("E"))),
        Ok(())
    );
    assert_eq!(
        schema.insert_input_field("P", InputValue::new("a", TypeRef::named("E"))),
        internal("\"P.a\" already exists in schema")
    );
    assert_eq!(
        schema.insert_input_field("P", InputValue::new("b", TypeRef::named("Q"))),
        internal("\"P.b\" refers to a type that does not exist in schema")
    );
    assert_eq!(schema.insert_type_directive("E", Directive::new("tag")), Ok(()));
    assert_eq!(schema.types[3].directives, vec![Directive::new("tag")]);
    assert_eq!(
        schema.insert_type_directive("Z", Directive::new("tag")),
        internal("Schema has no type \"Z\"")
    );
}

#[test]
fn roots_and_directive_definitions_are_guarded() {
    let mut schema = Schema::new();
    assert_eq!(schema.insert_shell("Q", TypeKind::Object, vec![]), Ok(()));
    assert_eq!(schema.insert_shell("E", TypeKind::Enum, vec![]), Ok(()));
    assert_eq!(
        schema.insert_root(RootKind::Query, "E"),
        internal("Root operation type \"E\" is not an object type")
    );
    assert_eq!(schema.insert_root(RootKind::Query, "Q"), Ok(()));
    assert_eq!(
        schema.insert_root(RootKind::Query, "Q"),
        internal("Root operation for \"Q\" already exists in schema")
    );
    assert_eq!(schema.insert_root(RootKind::Mutation, "Q"), Ok(()));
    assert_eq!(schema.insert_root(RootKind::Subscription, "Q"), Ok(()));
    assert_eq!(schema.query_type, Some("Q".to_string()));
    assert_eq!(schema.mutation_type, Some("Q".to_string()));
    assert_eq!(schema.subscription_type, Some("Q".to_string()));
    let d = |argument: &str| {
        DirectiveDefinition::new(
            "d",
            vec![InputValue::new("a", TypeRef::named(argument))],
            false,
            vec![DirectiveLocation::Field],
        )
    };
    assert_eq!(
        schema.insert_directive_definition(d("Nope")),
        internal("Directive \"@d\" has an argument of a type that does not exist in schema")
    );
    assert_eq!(schema.insert_directive_definition(d("E")), Ok(()));
    assert_eq!(
        schema.insert_directive_definition(d("E")),
        internal("Directive \"@d\" already exists in schema")
    );
    assert_eq!(schema.directive_definitions, vec![d("E")]);
}

#[test]
fn fields_are_removed_by_name() {
    let mut schema = Schema::new();
    schema.types = vec![TypeDefinition::new(TypeKind::Object, "T")
        .with_field(Field::new("a", TypeRef::named("Int")))
        .with_field(Field::new("b", TypeRef::named("Int")))
        .with_field(Field::new("a", TypeRef::named("String")))];
    schema.remove_field("U", "a");
    assert_eq!(schema.types[0].fields.len(), 3);
    schema.remove_field("T", "a");
    assert_eq!(schema.types[0].fields, vec![Field::new("b", TypeRef::named("Int"))]);
}

fn cascading() -> Schema {
    let mut schema = Schema::new();
    schema.query_type = Some("Root".to_string());
    schema.mutation_type = Some("Kept".to_string());
    schema.types = vec![
        TypeDefinition::new(TypeKind::Object, "Root"),
        TypeDefinition::new(TypeKind::Object, "Holder")
            .with_field(Field::new("root", TypeRef::non_null("Root").list(true))),
        TypeDefinition::new(TypeKind::Union, "Either").with_member("Holder").with_member("Root"),
        TypeDefinition::new(TypeKind::InputObject, "Filter"),
        TypeDefinition::new(TypeKind::InputObject, "Outer")
            .with_input_field(InputValue::new("filter", TypeRef::named("Filter"))),
        TypeDefinition::new(TypeKind::Interface, "Ghost"),
        TypeDefinition::new(TypeKind::Object, "Kept")
            .with_interface("Ghost")
            .with_field(Field::new("n", TypeRef::named("Int")))
            .with_field(
                Field::new("search", TypeRef::named("Int"))
                    .with_argument(InputValue::new("filter", TypeRef::named("Filter")))
                    .with_argument(InputValue::new("size", TypeRef::named("Int"))),
            )
            .with_field(Field::new("either", TypeRef::named("Either"))),
        TypeDefinition::new(TypeKind::Enum, "Empty"),
        TypeDefinition::new(TypeKind::Scalar, "Date"),
    ];
    schema.directive_definitions = vec![DirectiveDefinition::new(
        "d",
        vec![
            InputValue::new("filter", TypeRef::named("Outer")),
            InputValue::new("date", TypeRef::named("Date")),
        ],
        false,
        vec![DirectiveLocation::Field],
    )];
    schema
}

#[test]
fn pruning_removes_empty_shells_and_what_depends_on_them() {
    let mut schema = cascading();
    schema.prune();
    assert_eq!(names(&schema), vec!["Kept", "Empty", "Date"]);
    assert_eq!(schema.query_type, None);
    assert_eq!(schema.mutation_type, Some("Kept".to_string()));
    let kept = &schema.types[0];
    assert!(kept.implements.is_empty());
    assert_eq!(
        kept.fields,
        vec![
            Field::new("n", TypeRef::named("Int")),
            Field::new("search", TypeRef::named("Int"))
                .with_argument(InputValue::new("size", TypeRef::named("Int"))),
        ]
    );
    assert_eq!(
        schema.directive_definitions[0].arguments,
        vec![InputValue::new("date", TypeRef::named("Date"))]
    );
    assert_eq!(schema.find_empty_shell(), None);
}

#[test]
fn a_type_is_removed_with_what_it_leaves_empty() {
    let mut schema = cascading();
    assert_eq!(
        schema.remove_recursive("Empty"),
        internal("Encountered type kind that shouldn't have been removed")
    );
    assert_eq!(
        schema.remove_recursive("Date"),
        internal("Encountered type kind that shouldn't have been removed")
    );
    assert_eq!(schema.remove_recursive("Nothing"), Ok(()));
    assert_eq!(schema, cascading());
    assert_eq!(schema.remove_recursive("Kept"), Ok(()));
    assert_eq!(names(&schema), vec!["Empty", "Date"]);
    assert_eq!(schema.mutation_type, None);
}

#[test]
fn a_schema_without_empty_shell_is_left_as_it_is() {
    let mut subgraph = FederationSubgraph {
        name: "a".to_string(),
        url: "http://a".to_string(),
        schema: new_empty_fed_2_subgraph_schema(),
    };
    remove_unused_types_from_subgraph(&mut subgraph);
    assert_eq!(subgraph.schema, new_empty_fed_2_subgraph_schema());
    assert_eq!(subgraph.name, "a");
}

#[test]
fn removing_a_type_removes_what_mentions_it() {
    let mut schema = cascading();
    schema.remove_type("Nothing");
    assert_eq!(schema, cascading());
    schema.remove_type("Filter");
    assert_eq!(names(&schema).len(), 8);
    assert!(schema.types[3].input_fields.is_empty());
    assert_eq!(
        schema.types[5].fields[1].arguments,
        vec![InputValue::new("size", TypeRef::named("Int"))]
    );
    schema.remove_type("Int");
    assert_eq!(schema.types.len(), 8);
    assert_eq!(schema.types[5].fields, vec![Field::new("either", TypeRef::named("Either"))]);
}

#[test]
fn the_federation_operations_are_added() {
    let mut subgraph = FederationSubgraph {
        name: "a".to_string(),
        url: "http://a".to_string(),
        schema: new_empty_fed_2_subgraph_schema(),
    };
    let key = Directive::new("federation__key").with_string("fields", "id");
    assert_eq!(subgraph.schema.insert_shell("P", TypeKind::Object, vec![key.clone()]), Ok(()));
    assert_eq!(subgraph.schema.insert_shell("I", TypeKind::Interface, vec![key]), Ok(()));
    assert_eq!(
        subgraph.schema.insert_field("P", TypeKind::Object, Field::new("id", TypeRef::named("ID"))),
        Ok(())
    );
    assert_eq!(add_federation_operations(&mut subgraph), Ok(()));
    assert_eq!(
        names(&subgraph.schema)[4..],
        ["P", "I", "_Any", "_Service", "_Entity", "Query"]
    );
    assert_eq!(subgraph.schema.types[8].members, vec!["P".to_string()]);
    assert_eq!(subgraph.schema.entity_names(), vec!["P".to_string()]);
    let query = &subgraph.schema.types[9];
    let fields: Vec<&str> = query.fields.iter().map(|f| f.name.as_str()).collect();
    assert_eq!(fields, vec!["_entities", "_service"]);
    assert_eq!(
        add_federation_operations(&mut subgraph),
        internal("Type \"_Any\" already exists in schema")
    );
}

#[test]
fn a_stale_entities_field_goes_where_there_is_no_entity() {
    let mut schema = new_empty_fed_2_subgraph_schema();
    assert_eq!(schema.insert_shell("Root", TypeKind::Object, vec![]), Ok(()));
    assert_eq!(schema.insert_root(RootKind::Query, "Root"), Ok(()));
    assert_eq!(
        schema.insert_field("Root", TypeKind::Object, Field::new("_entities", TypeRef::named("Int"))),
        Ok(())
    );
    assert_eq!(schema.add_federation_operations(), Ok(()));
    let root = &schema.types[4];
    assert_eq!(root.name, "Root");
    assert_eq!(root.fields.len(), 1);
    assert_eq!(root.fields[0].name, "_service");
    assert!(schema.find_type("_Entity").is_none());
    assert!(schema.find_type("Query").is_none());
}

#[test]
fn executable_locations_are_those_of_executable_documents() {
    let executable = [
        DirectiveLocation::Query,
        DirectiveLocation::Mutation,
        DirectiveLocation::Subscription,
        DirectiveLocation::Field,
        DirectiveLocation::FragmentDefinition,
        DirectiveLocation::FragmentSpread,
        DirectiveLocation::InlineFragment,
        DirectiveLocation::VariableDefinition,
    ];
    let other = [
        DirectiveLocation::Schema,
        DirectiveLocation::Scalar,
        DirectiveLocation::Object,
        DirectiveLocation::FieldDefinition,
        DirectiveLocation::ArgumentDefinition,
        DirectiveLocation::Interface,
        DirectiveLocation::Union,
        DirectiveLocation::Enum,
        DirectiveLocation::EnumValue,
        DirectiveLocation::InputObject,
        DirectiveLocation::InputFieldDefinition,
    ];
    assert!(executable.iter().all(|l| is_executable(*l)));
    assert!(other.iter().all(|l| !is_executable(*l)));
    assert!(collect_executable_definitions(&new_empty_fed_2_subgraph_schema()).is_empty());
}

#[test]
fn a_refused_edit_leaves_the_schema_as_it_was() {
    let build = || {
        let mut schema = Schema::new();
        assert_eq!(schema.insert_shell("T", TypeKind::Object, vec![]), Ok(()));
        assert_eq!(
            schema.insert_field("T", TypeKind::Object, Field::new("x", TypeRef::named("Int"))),
            Ok(())
        );
        schema
    };
    let mut schema = build();
    let before = build().types;
    assert!(schema
        .insert_field("T", TypeKind::Object, Field::new("x", TypeRef::named("Int")))
        .is_err());
    assert!(schema
        .insert_field("T", TypeKind::Object, Field::new("y", TypeRef::named("Nope")))
        .is_err());
    assert!(schema.insert_shell("T", TypeKind::Enum, vec![]).is_err());
    assert!(schema.insert_enum_value("T", "A").is_err());
    assert!(schema.insert_member("T", "T").is_err());
    assert!(schema.insert_input_field("T", InputValue::new("a", TypeRef::named("Int"))).is_err());
    assert!(schema.insert_implements("T", TypeKind::Object, "T").is_err());
    assert_eq!(schema.types, before);
}
