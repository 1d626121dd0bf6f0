use subgraph_extraction::error::FederationError;
use subgraph_extraction::extract::extract_subgraphs_from_supergraph;
use subgraph_extraction::schema::{
    ArgValue, Directive, DirectiveDefinition, DirectiveLocation, EnumValue, Field, InputValue,
    Schema, TypeDefinition, TypeKind, TypeRef,
};
use subgraph_extraction::subgraphs::FederationSubgraphs;

fn join_definitions() -> Vec<DirectiveDefinition> {
    vec![
        DirectiveDefinition::new(
            "link",
            vec![
                InputValue::new("url", TypeRef::named("String")),
                InputValue::new("as", TypeRef::named("String")),
                InputValue::new("for", TypeRef::named("link__Purpose")),
                InputValue::new("import", TypeRef::named("link__Import").list(false)),
            ],
            true,
            vec![DirectiveLocation::Schema],
        ),
        DirectiveDefinition::new(
            "join__graph",
            vec![
                InputValue::new("name", TypeRef::non_null("String")),
                InputValue::new("url", TypeRef::non_null("String")),
            ],
            false,
            vec![DirectiveLocation::EnumValue],
        ),
        DirectiveDefinition::new(
            "join__type",
            vec![
                InputValue::new("graph", TypeRef::non_null("join__Graph")),
                InputValue::new("key", TypeRef::named("join__FieldSet")),
                InputValue::new("extension", TypeRef::non_null("Boolean")),
                InputValue::new("resolvable", TypeRef::non_null("Boolean")),
                InputValue::new("isInterfaceObject", TypeRef::non_null("Boolean")),
            ],
            true,
            vec![
                DirectiveLocation::Object,
                DirectiveLocation::Interface,
                DirectiveLocation::Union,
                DirectiveLocation::Enum,
                DirectiveLocation::InputObject,
                DirectiveLocation::Scalar,
            ],
        ),
        DirectiveDefinition::new(
            "join__field",
            vec![
                InputValue::new("graph", TypeRef::named("join__Graph")),
                InputValue::new("requires", TypeRef::named("join__FieldSet")),
                InputValue::new("provides", TypeRef::named("join__FieldSet")),
                InputValue::new("type", TypeRef::named("String")),
                InputValue::new("external", TypeRef::named("Boolean")),
                InputValue::new("override", TypeRef::named("String")),
                InputValue::new("usedOverridden", TypeRef::named("Boolean")),
            ],
            true,
            vec![DirectiveLocation::FieldDefinition, DirectiveLocation::InputFieldDefinition],
        ),
        DirectiveDefinition::new(
            "join__implements",
            vec![
                InputValue::new("graph", TypeRef::non_null("join__Graph")),
                InputValue::new("interface", TypeRef::non_null("String")),
            ],
            true,
            vec![DirectiveLocation::Object, DirectiveLocation::Interface],
        ),
        DirectiveDefinition::new(
            "join__unionMember",
            vec![
                InputValue::new("graph", TypeRef::non_null("join__Graph")),
                InputValue::new("member", TypeRef::non_null("String")),
            ],
            true,
            vec![DirectiveLocation::Union],
        ),
        DirectiveDefinition::new(
            "join__enumValue",
            vec![InputValue::new("graph", TypeRef::non_null("join__Graph"))],
            true,
            vec![DirectiveLocation::EnumValue],
        ),
    ]
}

fn graph_enum(services: &[(&str, &str, &str)]) -> TypeDefinition {
    let mut t = TypeDefinition::new(TypeKind::Enum, "join__Graph");
    for (value, name, url) in services {
        t = t.with_value(EnumValue::new(value).with_directive(
            Directive::new("join__graph").with_string("name", name).with_string("url", url),
        ));
    }
    t
}

fn supergraph(
    join_version: &str,
    services: &[(&str, &str, &str)],
    types: Vec<TypeDefinition>,
) -> Schema {
    let mut schema = Schema::new();
    schema.directives = vec![
        Directive::new("link").with_string("url", "https://specs.apollo.dev/link/v1.0"),
        Directive::new("link")
            .with_string("url", &format!("https://specs.apollo.dev/join/{}", join_version))
            .with_enum("for", "EXECUTION"),
    ];
    schema.query_type = Some("Query".to_string());
    schema.types = vec![
        TypeDefinition::new(TypeKind::Scalar, "link__Import"),
        TypeDefinition::new(TypeKind::Scalar, "join__FieldSet"),
        graph_enum(services),
    ];
    schema.types.extend(types);
    schema.directive_definitions = join_definitions();
    schema
}

fn join_type(service: &str) -> Directive {
    Directive::new("join__type").with_enum("graph", service)
}

fn join_key(service: &str, key: &str) -> Directive {
    join_type(service).with_string("key", key)
}

fn join_field(service: &str) -> Directive {
    Directive::new("join__field").with_enum("graph", service)
}

fn two_services() -> Vec<(&'static str, &'static str, &'static str)> {
    vec![("A", "a", "http://a"), ("B", "b", "http://b")]
}

fn object(name: &str) -> TypeDefinition {
    TypeDefinition::new(TypeKind::Object, name)
}

fn query_in(services: &[&str]) -> TypeDefinition {
    let mut t = object("Query");
    for s in services {
        t = t.with_directive(join_type(s));
    }
    t.with_field(Field::new("ping", TypeRef::named("String")))
}

fn find<'a>(subgraphs: &'a FederationSubgraphs, name: &str) -> &'a Schema {
    &subgraphs.get(name).expect("the service is in the registry").schema
}

fn type_named<'a>(schema: &'a Schema, name: &str) -> Option<&'a TypeDefinition> {
    schema.types.iter().find(|t| t.name == name)
}

fn field_named<'a>(t: &'a TypeDefinition, name: &str) -> Option<&'a Field> {
    t.fields.iter().find(|f| f.name == name)
}

fn field_names(t: &TypeDefinition) -> Vec<String> {
    t.fields.iter().map(|f| f.name.clone()).collect()
}

fn directive_names(directives: &[Directive]) -> Vec<String> {
    directives.iter().map(|d| d.name.clone()).collect()
}

fn extract(schema: Schema) -> FederationSubgraphs {
    extract_subgraphs_from_supergraph(schema, None).expect("the supergraph is well formed")
}

fn message_of(r: Result<FederationSubgraphs, FederationError>) -> String {
    match r {
        Ok(_) => panic!("expected an error"),
        Err(e) => e.message(),
    }
}

fn product_supergraph() -> Schema {
    supergraph(
        "v0.3",
        &two_services(),
        vec![
            object("Product")
                .with_directive(join_key("A", "id"))
                .with_directive(join_key("B", "id"))
                .with_field(Field::new("id", TypeRef::non_null("ID")).with_directive(join_field("A")))
                .with_field(
                    Field::new("name", TypeRef::named("String")).with_directive(join_field("B")),
                ),
            query_in(&["A", "B"]),
        ],
    )
}

#[test]
fn each_service_gets_only_its_own_fields() {
    let subgraphs = extract(product_supergraph());
    let a = type_named(find(&subgraphs, "a"), "Product").expect("a owns Product");
    let b = type_named(find(&subgraphs, "b"), "Product").expect("b owns Product");
    assert_eq!(field_names(a), vec!["id".to_string()]);
    assert_eq!(field_names(b), vec!["name".to_string()]);
    for t in [a, b] {
        assert_eq!(
            t.directives,
            vec![Directive::new("federation__key")
                .with_string("fields", "id")
                .with_bool("resolvable", true)]
        );
    }
}

#[test]
fn a_type_left_without_fields_is_pruned() {
    let subgraphs = extract(supergraph(
        "v0.3",
        &two_services(),
        vec![
            object("Review")
                .with_directive(join_type("A"))
                .with_directive(join_type("B"))
                .with_field(
                    Field::new("body", TypeRef::named("String")).with_directive(join_field("A")),
                ),
            query_in(&["A", "B"]),
        ],
    ));
    assert!(type_named(find(&subgraphs, "a"), "Review").is_some());
    assert!(type_named(find(&subgraphs, "b"), "Review").is_none());
}

#[test]
fn pruning_takes_the_fields_of_the_pruned_type_along() {
    let subgraphs = extract(supergraph(
        "v0.3",
        &two_services(),
        vec![
            object("Review")
                .with_directive(join_type("A"))
                .with_directive(join_type("B"))
                .with_field(
                    Field::new("body", TypeRef::named("String")).with_directive(join_field("A")),
                ),
            object("Holder")
                .with_directive(join_type("B"))
                .with_field(Field::new("review", TypeRef::named("Review"))),
            query_in(&["A", "B"]),
        ],
    ));
    let b = find(&subgraphs, "b");
    assert!(type_named(b, "Review").is_none());
    assert!(type_named(b, "Holder").is_none());
}

#[test]
fn join_version_0_1_is_not_yet_supported() {
    let r = extract_subgraphs_from_supergraph(supergraph("v0.1", &two_services(), vec![]), None);
    match r {
        Err(FederationError::UnsupportedFederationVersion { message }) => {
            assert!(message.contains("not yet supported"));
        },
        other => panic!("expected the deferred-path error, got {:?}", other),
    }
}

#[test]
fn a_schema_without_links_is_no_core_schema() {
    let mut schema = supergraph("v0.3", &two_services(), vec![query_in(&["A"])]);
    schema.directives.clear();
    let r = extract_subgraphs_from_supergraph(schema, None);
    assert_eq!(
        r,
        Err(FederationError::InvalidFederationSupergraph {
            message: "Invalid supergraph: must be a core schema".to_string()
        })
    );
}

#[test]
fn a_schema_without_join_link_is_refused() {
    let mut schema = supergraph("v0.3", &two_services(), vec![query_in(&["A"])]);
    schema.directives.truncate(1);
    assert_eq!(
        message_of(extract_subgraphs_from_supergraph(schema, None)),
        "Invalid supergraph: must use the join spec"
    );
}

#[test]
fn an_unknown_join_version_is_refused() {
    let schema = supergraph("v0.12", &two_services(), vec![query_in(&["A"])]);
    assert_eq!(
        message_of(extract_subgraphs_from_supergraph(schema, None)),
        "Invalid supergraph: uses unsupported join spec version 0.12 (supported versions: 0.1, 0.2, 0.3)"
    );
}

#[test]
fn a_type_without_type_level_application_is_refused() {
    let schema = supergraph(
        "v0.3",
        &two_services(),
        vec![object("Orphan").with_field(Field::new("x", TypeRef::named("Int"))), query_in(&["A"])],
    );
    assert_eq!(
        extract_subgraphs_from_supergraph(schema, None),
        Err(FederationError::InvalidFederationSupergraph {
            message: "Missing @join__type on \"Orphan\"".to_string()
        })
    );
}

#[test]
fn a_field_application_must_name_an_owner() {
    let schema = supergraph(
        "v0.3",
        &two_services(),
        vec![
            object("T")
                .with_directive(join_type("A"))
                .with_field(Field::new("x", TypeRef::named("Int")).with_directive(join_field("B"))),
            query_in(&["A", "B"]),
        ],
    );
    assert_eq!(
        extract_subgraphs_from_supergraph(schema, None),
        Err(FederationError::InvalidFederationSupergraph {
            message: "@join__field cannot exist on T.x for subgraph B without type-level @join__type"
                .to_string()
        })
    );
}

#[test]
fn two_services_of_one_name_are_refused() {
    let schema = supergraph(
        "v0.3",
        &[("A", "same", "http://a"), ("B", "same", "http://b")],
        vec![query_in(&["A"])],
    );
    assert_eq!(
        message_of(extract_subgraphs_from_supergraph(schema, None)),
        "A subgraph named \"same\" already exists"
    );
}

#[test]
fn a_graph_value_without_graph_directive_is_refused() {
    let mut schema = supergraph("v0.3", &two_services(), vec![query_in(&["A"])]);
    schema.types[2].values[1].directives.clear();
    assert_eq!(
        message_of(extract_subgraphs_from_supergraph(schema, None)),
        "Value \"B\" of join__Graph enum has no @join__graph directive"
    );
}

#[test]
fn an_unknown_graph_value_is_an_internal_error() {
    let schema = supergraph(
        "v0.3",
        &two_services(),
        vec![
            object("T").with_directive(join_type("C")).with_field(Field::new("x", TypeRef::named("Int"))),
            query_in(&["A"]),
        ],
    );
    assert_eq!(
        extract_subgraphs_from_supergraph(schema, None),
        Err(FederationError::Internal {
            message: "Invalid graph enum_value \"C\": does not match an enum value defined in the @join__Graph enum"
                .to_string()
        })
    );
}

#[test]
fn a_field_without_application_goes_to_every_owner_and_is_shareable() {
    let subgraphs = extract(supergraph(
        "v0.3",
        &two_services(),
        vec![
            object("Money")
                .with_directive(join_type("A"))
                .with_directive(join_type("B"))
                .with_field(Field::new("amount", TypeRef::named("Int"))),
            object("Single")
                .with_directive(join_type("A"))
                .with_field(Field::new("only", TypeRef::named("Int"))),
            query_in(&["A", "B"]),
        ],
    ));
    for name in ["a", "b"] {
        let money = type_named(find(&subgraphs, name), "Money").expect("both own Money");
        let amount = field_named(money, "amount").expect("the field is in every owner");
        assert_eq!(directive_names(&amount.directives), vec!["federation__shareable".to_string()]);
    }
    let single = type_named(find(&subgraphs, "a"), "Single").expect("a owns Single");
    assert!(field_named(single, "only").expect("field").directives.is_empty());
}

#[test]
fn explicit_fields_carry_the_directives_of_their_application() {
    let subgraphs = extract(supergraph(
        "v0.3",
        &two_services(),
        vec![
            object("T")
                .with_directive(join_key("A", "id"))
                .with_directive(join_key("B", "id"))
                .with_field(Field::new("id", TypeRef::non_null("ID")))
                .with_field(
                    Field::new("x", TypeRef::named("Int"))
                        .with_directive(join_field("A").with_bool("external", true))
                        .with_directive(
                            join_field("B")
                                .with_string("requires", "id")
                                .with_string("provides", "id")
                                .with_string("override", "a"),
                        ),
                )
                .with_field(
                    Field::new("y", TypeRef::named("Int"))
                        .with_directive(join_field("A").with_bool("usedOverridden", true))
                        .with_directive(join_field("B")),
                )
                .with_field(
                    Field::new("z", TypeRef::named("Int"))
                        .with_directive(join_field("A"))
                        .with_directive(join_field("B")),
                ),
            query_in(&["A", "B"]),
        ],
    ));
    let a = type_named(find(&subgraphs, "a"), "T").expect("a owns T");
    let b = type_named(find(&subgraphs, "b"), "T").expect("b owns T");
    assert_eq!(
        field_named(a, "x").expect("x in a").directives,
        vec![Directive::new("federation__external")]
    );
    assert_eq!(
        field_named(b, "x").expect("x in b").directives,
        vec![
            Directive::new("federation__requires").with_string("fields", "id"),
            Directive::new("federation__provides").with_string("fields", "id"),
            Directive::new("federation__override").with_string("from", "a"),
        ]
    );
    assert_eq!(
        field_named(a, "y").expect("y in a").directives,
        vec![Directive::new("federation__external").with_string("reason", "[overridden]")]
    );
    assert!(field_named(b, "y").expect("y in b").directives.is_empty());
    for t in [a, b] {
        assert_eq!(
            field_named(t, "z").expect("z").directives,
            vec![Directive::new("federation__shareable")]
        );
    }
}

#[test]
fn a_field_application_without_graph_is_passed_over() {
    let subgraphs = extract(supergraph(
        "v0.3",
        &two_services(),
        vec![
            object("T")
                .with_directive(join_type("A"))
                .with_field(Field::new("kept", TypeRef::named("Int")))
                .with_field(
                    Field::new("synthetic", TypeRef::named("Int"))
                        .with_directive(Directive::new("join__field")),
                ),
            query_in(&["A"]),
        ],
    ));
    let t = type_named(find(&subgraphs, "a"), "T").expect("a owns T");
    assert_eq!(field_names(t), vec!["kept".to_string()]);
}

#[test]
fn a_type_override_replaces_the_type_of_the_field() {
    let subgraphs = extract(supergraph(
        "v0.3",
        &two_services(),
        vec![
            object("T")
                .with_directive(join_type("A"))
                .with_directive(join_type("B"))
                .with_field(
                    Field::new("x", TypeRef::named("Int"))
                        .with_argument(InputValue::new("first", TypeRef::named("Int")))
                        .with_directive(join_field("A").with_string("type", "[Int!]!"))
                        .with_directive(join_field("B")),
                ),
            query_in(&["A", "B"]),
        ],
    ));
    let a = type_named(find(&subgraphs, "a"), "T").expect("a owns T");
    let b = type_named(find(&subgraphs, "b"), "T").expect("b owns T");
    let x = field_named(a, "x").expect("x in a");
    assert_eq!(x.ty, TypeRef::non_null("Int").list(true));
    assert_eq!(x.arguments, vec![InputValue::new("first", TypeRef::named("Int"))]);
    assert_eq!(field_named(b, "x").expect("x in b").ty, TypeRef::named("Int"));
}

#[test]
fn a_type_override_that_is_no_type_is_refused() {
    let schema = supergraph(
        "v0.3",
        &two_services(),
        vec![
            object("T").with_directive(join_type("A")).with_field(
                Field::new("x", TypeRef::named("Int"))
                    .with_directive(join_field("A").with_string("type", "Int } type U { y: Int")),
            ),
            query_in(&["A"]),
        ],
    );
    assert_eq!(
        extract_subgraphs_from_supergraph(schema, None),
        Err(FederationError::InvalidGraphQL {
            message: "Cannot parse type \"Int } type U { y: Int\"".to_string()
        })
    );
}

#[test]
fn an_interface_object_is_an_object_with_the_marker() {
    let subgraphs = extract(supergraph(
        "v0.3",
        &two_services(),
        vec![
            TypeDefinition::new(TypeKind::Interface, "Node")
                .with_directive(join_key("A", "id"))
                .with_directive(join_key("B", "id").with_bool("isInterfaceObject", true))
                .with_field(Field::new("id", TypeRef::non_null("ID")))
                .with_field(Field::new("label", TypeRef::named("String")).with_directive(join_field("B"))),
            object("Item")
                .with_directive(join_key("A", "id"))
                .with_directive(
                    Directive::new("join__implements")
                        .with_enum("graph", "A")
                        .with_string("interface", "Node"),
                )
                .with_field(Field::new("id", TypeRef::non_null("ID"))),
            query_in(&["A", "B"]),
        ],
    ));
    let in_a = type_named(find(&subgraphs, "a"), "Node").expect("a owns Node");
    let in_b = type_named(find(&subgraphs, "b"), "Node").expect("b owns Node");
    assert_eq!(in_a.kind, TypeKind::Interface);
    assert_eq!(field_names(in_a), vec!["id".to_string()]);
    assert_eq!(in_b.kind, TypeKind::Object);
    assert_eq!(
        directive_names(&in_b.directives),
        vec!["federation__interfaceObject".to_string(), "federation__key".to_string()]
    );
    assert_eq!(field_names(in_b), vec!["id".to_string(), "label".to_string()]);
    let item = type_named(find(&subgraphs, "a"), "Item").expect("a owns Item");
    assert_eq!(item.implements, vec!["Node".to_string()]);
}

#[test]
fn an_implements_application_must_name_an_owner() {
    let schema = supergraph(
        "v0.3",
        &two_services(),
        vec![
            TypeDefinition::new(TypeKind::Interface, "Node")
                .with_directive(join_type("A"))
                .with_field(Field::new("id", TypeRef::non_null("ID"))),
            object("Item")
                .with_directive(join_type("A"))
                .with_directive(
                    Directive::new("join__implements")
                        .with_enum("graph", "B")
                        .with_string("interface", "Node"),
                )
                .with_field(Field::new("id", TypeRef::non_null("ID"))),
            query_in(&["A", "B"]),
        ],
    );
    assert_eq!(
        message_of(extract_subgraphs_from_supergraph(schema, None)),
        "@join__implements cannot exist on \"Item\" for subgraph \"B\" without type-level @join__type"
    );
}

fn union_supergraph(version: &str, applications: Vec<Directive>) -> Schema {
    let mut media = TypeDefinition::new(TypeKind::Union, "Media")
        .with_directive(join_type("A"))
        .with_directive(join_type("B"))
        .with_member("Book")
        .with_member("Film");
    for d in applications {
        media = media.with_directive(d);
    }
    supergraph(
        version,
        &two_services(),
        vec![
            object("Book")
                .with_directive(join_type("A"))
                .with_directive(join_type("B"))
                .with_field(Field::new("title", TypeRef::named("String"))),
            object("Film")
                .with_directive(join_type("A"))
                .with_field(Field::new("title", TypeRef::named("String"))),
            media,
            query_in(&["A", "B"]),
        ],
    )
}

#[test]
fn union_members_without_application_go_where_they_are_defined() {
    let subgraphs = extract(union_supergraph("v0.2", vec![]));
    let a = type_named(find(&subgraphs, "a"), "Media").expect("a owns Media");
    let b = type_named(find(&subgraphs, "b"), "Media").expect("b owns Media");
    assert_eq!(a.members, vec!["Book".to_string(), "Film".to_string()]);
    assert_eq!(b.members, vec!["Book".to_string()]);
}

#[test]
fn union_members_follow_their_applications() {
    let member = |service: &str, name: &str| {
        Directive::new("join__unionMember").with_enum("graph", service).with_string("member", name)
    };
    let subgraphs = extract(union_supergraph("v0.3", vec![member("A", "Film"), member("B", "Book")]));
    let a = type_named(find(&subgraphs, "a"), "Media").expect("a owns Media");
    let b = type_named(find(&subgraphs, "b"), "Media").expect("b owns Media");
    assert_eq!(a.members, vec!["Film".to_string()]);
    assert_eq!(b.members, vec!["Book".to_string()]);
}

#[test]
fn a_union_member_application_must_name_an_owner() {
    let mut schema = union_supergraph("v0.3", vec![]);
    schema.types[5].directives.remove(1);
    schema.types[5].directives.push(
        Directive::new("join__unionMember").with_enum("graph", "B").with_string("member", "Book"),
    );
    assert_eq!(
        message_of(extract_subgraphs_from_supergraph(schema, None)),
        "@join__unionMember cannot exist on Media for subgraph B without type-level @join__type"
    );
}

#[test]
fn enum_values_follow_their_applications_or_go_to_every_owner() {
    let value = |service: &str| Directive::new("join__enumValue").with_enum("graph", service);
    let subgraphs = extract(supergraph(
        "v0.3",
        &two_services(),
        vec![
            TypeDefinition::new(TypeKind::Enum, "Color")
                .with_directive(join_type("A"))
                .with_directive(join_type("B"))
                .with_value(EnumValue::new("RED"))
                .with_value(EnumValue::new("GREEN").with_directive(value("A")))
                .with_value(EnumValue::new("BLUE").with_directive(value("B"))),
            query_in(&["A", "B"]),
        ],
    ));
    let names = |service: &str| -> Vec<String> {
        type_named(find(&subgraphs, service), "Color")
            .expect("both own Color")
            .values
            .iter()
            .map(|v| v.name.clone())
            .collect()
    };
    assert_eq!(names("a"), vec!["RED".to_string(), "GREEN".to_string()]);
    assert_eq!(names("b"), vec!["RED".to_string(), "BLUE".to_string()]);
}

#[test]
fn an_enum_value_application_must_name_an_owner() {
    let schema = supergraph(
        "v0.3",
        &two_services(),
        vec![
            TypeDefinition::new(TypeKind::Enum, "Color").with_directive(join_type("A")).with_value(
                EnumValue::new("RED")
                    .with_directive(Directive::new("join__enumValue").with_enum("graph", "B")),
            ),
            query_in(&["A", "B"]),
        ],
    );
    assert_eq!(
        message_of(extract_subgraphs_from_supergraph(schema, None)),
        "@join__enumValue cannot exist on Color.RED for subgraph B without type-level @join__type"
    );
}

#[test]
fn input_fields_keep_their_default_and_take_a_type_override() {
    let mut limit = InputValue::new("limit", TypeRef::named("Int"));
    limit.default_value = Some("10".to_string());
    let only_b = InputValue::new("cursor", TypeRef::named("String"))
        .with_directive(join_field("B").with_string("type", "String!"));
    let subgraphs = extract(supergraph(
        "v0.3",
        &two_services(),
        vec![
            TypeDefinition::new(TypeKind::InputObject, "Page")
                .with_directive(join_type("A"))
                .with_directive(join_type("B"))
                .with_input_field(limit.clone())
                .with_input_field(only_b),
            query_in(&["A", "B"]),
        ],
    ));
    let a = type_named(find(&subgraphs, "a"), "Page").expect("a owns Page");
    let b = type_named(find(&subgraphs, "b"), "Page").expect("b owns Page");
    assert_eq!(a.input_fields, vec![limit.clone()]);
    assert_eq!(b.input_fields, vec![limit, InputValue::new("cursor", TypeRef::non_null("String"))]);
}

#[test]
fn scalars_are_declared_where_their_applications_say() {
    let subgraphs = extract(supergraph(
        "v0.3",
        &two_services(),
        vec![
            TypeDefinition::new(TypeKind::Scalar, "Date").with_directive(join_type("B")),
            query_in(&["A", "B"]),
        ],
    ));
    assert!(type_named(find(&subgraphs, "a"), "Date").is_none());
    assert_eq!(
        type_named(find(&subgraphs, "b"), "Date").expect("b has Date").kind,
        TypeKind::Scalar
    );
}

#[test]
fn executable_directives_reach_every_service_without_type_system_locations() {
    let mut schema = supergraph("v0.3", &two_services(), vec![query_in(&["A", "B"])]);
    schema.directive_definitions.push(DirectiveDefinition::new(
        "stream",
        vec![InputValue::new("size", TypeRef::named("Int"))
            .with_directive(Directive::new("deprecated"))],
        false,
        vec![DirectiveLocation::Field, DirectiveLocation::FieldDefinition],
    ));
    let subgraphs = extract_subgraphs_from_supergraph(schema, None).expect("well formed");
    for name in ["a", "b"] {
        let d = find(&subgraphs, name)
            .directive_definitions
            .iter()
            .find(|d| d.name == "stream")
            .expect("the directive was copied");
        assert_eq!(d.locations, vec![DirectiveLocation::Field]);
        assert_eq!(d.arguments, vec![InputValue::new("size", TypeRef::named("Int"))]);
        assert!(find(&subgraphs, name).directive_definitions.iter().all(|d| d.name != "join__type"));
    }
}

#[test]
fn the_entity_surface_is_there_exactly_where_there_are_entities() {
    let subgraphs = extract(supergraph(
        "v0.3",
        &two_services(),
        vec![
            object("Product")
                .with_directive(join_key("A", "id"))
                .with_field(Field::new("id", TypeRef::non_null("ID"))),
            object("Plain")
                .with_directive(join_type("B"))
                .with_field(Field::new("x", TypeRef::named("Int"))),
            query_in(&["A"]),
        ],
    ));
    let a = find(&subgraphs, "a");
    let b = find(&subgraphs, "b");
    let entity = type_named(a, "_Entity").expect("a has entities");
    assert_eq!(entity.kind, TypeKind::Union);
    assert_eq!(entity.members, vec!["Product".to_string()]);
    let query_a = type_named(a, "Query").expect("a has a query root");
    let entities = field_named(query_a, "_entities").expect("a resolves entities");
    assert_eq!(entities.ty, TypeRef::named("_Entity").list(true));
    assert_eq!(
        entities.arguments,
        vec![InputValue::new("representations", TypeRef::non_null("_Any").list(true))]
    );
    assert!(type_named(b, "_Entity").is_none());
    let query_b = type_named(b, "Query").expect("a query root was made for b");
    assert_eq!(field_names(query_b), vec!["_service".to_string()]);
    assert_eq!(b.query_type, Some("Query".to_string()));
    for s in [a, b] {
        assert_eq!(type_named(s, "_Any").expect("_Any").kind, TypeKind::Scalar);
        let service = type_named(s, "_Service").expect("_Service");
        assert_eq!(service.fields, vec![Field::new("sdl", TypeRef::named("String"))]);
        let query = type_named(s, "Query").expect("Query");
        assert_eq!(
            field_named(query, "_service").expect("_service").ty,
            TypeRef::non_null("_Service")
        );
    }
}

#[test]
fn a_key_on_an_extension_is_marked_so() {
    let subgraphs = extract(supergraph(
        "v0.3",
        &two_services(),
        vec![
            object("Product")
                .with_directive(
                    join_key("A", "id").with_bool("extension", true).with_bool("resolvable", false),
                )
                .with_field(Field::new("id", TypeRef::non_null("ID"))),
            query_in(&["A"]),
        ],
    ));
    let mut expected = Directive::new("federation__key")
        .with_string("fields", "id")
        .with_bool("resolvable", false);
    expected.extension = true;
    let product = type_named(find(&subgraphs, "a"), "Product").expect("a owns Product");
    assert_eq!(product.directives, vec![expected]);
}

#[test]
fn an_extracted_schema_that_is_not_valid_is_reported_with_its_service() {
    let invalid = || {
        supergraph(
            "v0.3",
            &two_services(),
            vec![
                TypeDefinition::new(TypeKind::Interface, "Node")
                    .with_directive(join_type("A"))
                    .with_field(Field::new("id", TypeRef::non_null("ID"))),
                object("Item")
                    .with_directive(join_type("A"))
                    .with_directive(
                        Directive::new("join__implements")
                            .with_enum("graph", "A")
                            .with_string("interface", "Node"),
                    )
                    .with_field(Field::new("other", TypeRef::named("Int"))),
                query_in(&["A", "B"]),
            ],
        )
    };
    let message = message_of(extract_subgraphs_from_supergraph(invalid(), None));
    assert!(message.starts_with(
        "Unexpected error extracting a from the supergraph: this is either a bug, or the supergraph has been corrupted.\n\nDetails:\n"
    ));
    assert!(message.contains("Item"));
    assert!(extract_subgraphs_from_supergraph(invalid(), Some(true)).is_err());
    assert!(extract_subgraphs_from_supergraph(invalid(), Some(false)).is_ok());
}

#[test]
fn the_registry_lists_the_services_by_name() {
    let subgraphs = extract(supergraph(
        "v0.3",
        &[("Z", "zeta", "http://z"), ("M", "mu", "http://m"), ("A", "alpha", "http://a")],
        vec![query_in(&["Z", "M", "A"])],
    ));
    let names: Vec<String> = subgraphs.subgraphs.iter().map(|s| s.name.clone()).collect();
    assert_eq!(names, vec!["alpha".to_string(), "mu".to_string(), "zeta".to_string()]);
    assert_eq!(subgraphs.get("mu").expect("mu").url, "http://m");
    assert!(subgraphs.get("nu").is_none());
}

fn defined(schema: &Schema, name: &str) -> bool {
    ["Int", "Float", "String", "Boolean", "ID"].contains(&name) || type_named(schema, name).is_some()
}

#[test]
fn extracted_schemas_have_no_empty_type_and_no_dangling_reference() {
    let subgraphs = extract(union_supergraph("v0.3", vec![]));
    for subgraph in subgraphs.subgraphs.iter() {
        let schema = &subgraph.schema;
        for t in schema.types.iter() {
            match t.kind {
                TypeKind::Object | TypeKind::Interface => assert!(!t.fields.is_empty()),
                TypeKind::Union => assert!(!t.members.is_empty()),
                TypeKind::InputObject => assert!(!t.input_fields.is_empty()),
                _ => {},
            }
            for f in t.fields.iter() {
                assert!(defined(schema, &f.ty.name));
                assert!(f.arguments.iter().all(|a| defined(schema, &a.ty.name)));
            }
            assert!(t.input_fields.iter().all(|f| defined(schema, &f.ty.name)));
            assert!(t.members.iter().all(|m| defined(schema, m)));
            assert!(t.implements.iter().all(|i| defined(schema, i)));
        }
        for d in schema.directive_definitions.iter() {
            assert!(d.arguments.iter().all(|a| defined(schema, &a.ty.name)));
        }
    }
}

#[test]
fn a_field_of_a_type_that_the_service_lacks_is_an_internal_error() {
    let schema = supergraph(
        "v0.3",
        &two_services(),
        vec![
            object("Only").with_directive(join_type("A")).with_field(Field::new("x", TypeRef::named("Int"))),
            object("T")
                .with_directive(join_type("B"))
                .with_field(Field::new("only", TypeRef::named("Only"))),
            query_in(&["A", "B"]),
        ],
    );
    assert_eq!(
        extract_subgraphs_from_supergraph(schema, Some(false)),
        Err(FederationError::Internal {
            message: "\"T.only\" refers to a type that does not exist in schema".to_string()
        })
    );
}

#[test]
fn an_argument_of_the_wrong_kind_is_an_internal_error() {
    let schema = supergraph(
        "v0.3",
        &two_services(),
        vec![
            object("T")
                .with_directive(Directive::new("join__type").with_string("graph", "A"))
                .with_field(Field::new("x", TypeRef::named("Int"))),
            query_in(&["A"]),
        ],
    );
    assert_eq!(
        extract_subgraphs_from_supergraph(schema, None),
        Err(FederationError::Internal {
            message: "Argument \"graph\" of directive \"@join__type\" is not of the expected kind"
                .to_string()
        })
    );
    let _ = ArgValue::Bool(true);
}

fn members_of(t: &TypeDefinition) -> Vec<String> {
    let mut all: Vec<String> = t.fields.iter().map(|f| f.name.clone()).collect();
    all.extend(t.input_fields.iter().map(|f| f.name.clone()));
    all.extend(t.values.iter().map(|v| v.name.clone()));
    all.extend(t.members.iter().cloned());
    all
}

fn is_federation_member(schema: &Schema, owner: &str, member: &str) -> bool {
    (owner == "link__Purpose" && (member == "SECURITY" || member == "EXECUTION"))
        || (owner == "_Service" && member == "sdl")
        || owner == "_Entity"
        || (schema.query_type.as_deref() == Some(owner)
            && (member == "_service" || member == "_entities"))
}

#[test]
fn every_member_of_an_extracted_type_is_a_member_in_the_supergraph() {
    let value = |service: &str| Directive::new("join__enumValue").with_enum("graph", service);
    let build = || {
        let mut schema = union_supergraph("v0.3", vec![]);
        schema.types.push(
            TypeDefinition::new(TypeKind::Enum, "Color")
                .with_directive(join_type("A"))
                .with_directive(join_type("B"))
                .with_value(EnumValue::new("RED"))
                .with_value(EnumValue::new("BLUE").with_directive(value("B"))),
        );
        schema.types.push(
            TypeDefinition::new(TypeKind::InputObject, "Page")
                .with_directive(join_type("B"))
                .with_input_field(InputValue::new("size", TypeRef::named("Int"))),
        );
        schema
    };
    let supergraph = build();
    let subgraphs = extract(build());
    let mut seen = 0;
    for subgraph in subgraphs.subgraphs.iter() {
        let graph = subgraph.name.to_uppercase();
        for t in subgraph.schema.types.iter() {
            for member in members_of(t) {
                if is_federation_member(&subgraph.schema, &t.name, &member) {
                    continue;
                }
                let origin = type_named(&supergraph, &t.name).expect("the type is in the supergraph");
                assert!(origin
                    .directives
                    .iter()
                    .any(|d| d.name == "join__type" && d.arguments[0].value == ArgValue::Enum(graph.clone())));
                assert!(members_of(origin).contains(&member));
                seen += 1;
            }
        }
    }
    assert_eq!(seen, 12);
}

#[test]
fn a_service_without_any_type_is_still_drawn() {
    let subgraphs = extract(supergraph(
        "v0.3",
        &two_services(),
        vec![object("Query")
            .with_directive(join_type("A"))
            .with_field(Field::new("ping", TypeRef::named("String")))],
    ));
    assert_eq!(subgraphs.len(), 2);
    let b = find(&subgraphs, "b");
    let names: Vec<&str> = b.types.iter().map(|t| t.name.as_str()).collect();
    assert_eq!(
        names,
        vec![
            "link__Import",
            "link__Purpose",
            "federation__FieldSet",
            "federation__Scope",
            "_Any",
            "_Service",
            "Query"
        ]
    );
    assert_eq!(subgraphs.get("b").expect("b").url, "http://b");
}

#[test]
fn an_empty_query_type_is_pruned_and_made_anew() {
    let subgraphs = extract(supergraph(
        "v0.3",
        &two_services(),
        vec![object("Query")
            .with_directive(join_type("A"))
            .with_directive(join_type("B"))
            .with_field(Field::new("ping", TypeRef::named("String")).with_directive(join_field("A")))],
    ));
    let b = find(&subgraphs, "b");
    let query = type_named(b, "Query").expect("b has a query root");
    assert_eq!(field_names(query), vec!["_service".to_string()]);
    assert_eq!(b.query_type, Some("Query".to_string()));
    let a = find(&subgraphs, "a");
    assert_eq!(
        field_names(type_named(a, "Query").expect("a has a query root")),
        vec!["ping".to_string(), "_service".to_string()]
    );
}

#[test]
fn an_application_must_write_the_other_type_as_a_name() {
    let schema = supergraph(
        "v0.3",
        &two_services(),
        vec![
            object("Item")
                .with_directive(join_type("A"))
                .with_directive(
                    Directive::new("join__implements")
                        .with_enum("graph", "A")
                        .with_string("interface", "No de"),
                )
                .with_field(Field::new("id", TypeRef::non_null("ID"))),
            query_in(&["A", "B"]),
        ],
    );
    assert_eq!(
        extract_subgraphs_from_supergraph(schema, None),
        Err(FederationError::InvalidGraphQL { message: "Invalid GraphQL name \"No de\"".to_string() })
    );
    let member = Directive::new("join__unionMember").with_enum("graph", "A").with_string("member", "");
    assert_eq!(
        extract_subgraphs_from_supergraph(union_supergraph("v0.3", vec![member]), None),
        Err(FederationError::InvalidGraphQL { message: "Invalid GraphQL name \"\"".to_string() })
    );
}

#[test]
fn every_type_of_a_service_is_owned_or_federation_made() {
    let supergraph = union_supergraph("v0.3", vec![]);
    let subgraphs = extract(union_supergraph("v0.3", vec![]));
    let made = [
        "link__Import",
        "link__Purpose",
        "federation__FieldSet",
        "federation__Scope",
        "_Any",
        "_Service",
        "_Entity",
        "Query",
    ];
    for subgraph in subgraphs.subgraphs.iter() {
        let graph = subgraph.name.to_uppercase();
        for t in subgraph.schema.types.iter() {
            if made.contains(&t.name.as_str()) {
                continue;
            }
            let origin = type_named(&supergraph, &t.name).expect("the type is in the supergraph");
            assert!(origin
                .directives
                .iter()
                .any(|d| d.name == "join__type" && d.arguments[0].value == ArgValue::Enum(graph.clone())));
        }
        let has_entity_type = type_named(&subgraph.schema, "_Entity").is_some();
        let has_entities_field = type_named(&subgraph.schema, "Query")
            .expect("every service has a query root")
            .fields
            .iter()
            .any(|f| f.name == "_entities");
        let has_keys = subgraph
            .schema
            .types
            .iter()
            .any(|t| t.kind == TypeKind::Object && t.directives.iter().any(|d| d.name == "federation__key"));
        assert_eq!(has_entity_type, has_keys);
        assert_eq!(has_entities_field, has_keys);
    }
}

#[test]
fn a_field_application_on_an_interface_must_name_an_owner() {
    let schema = supergraph(
        "v0.3",
        &two_services(),
        vec![
            TypeDefinition::new(TypeKind::Interface, "Node")
                .with_directive(join_type("A"))
                .with_field(Field::new("id", TypeRef::non_null("ID")).with_directive(join_field("B"))),
            query_in(&["A", "B"]),
        ],
    );
    assert_eq!(
        extract_subgraphs_from_supergraph(schema, None),
        Err(FederationError::InvalidFederationSupergraph {
            message: "@join__field cannot exist on Node.id for subgraph B without type-level @join__type"
                .to_string()
        })
    );
}

#[test]
fn an_executable_directive_loses_the_argument_of_a_pruned_type() {
    let mut schema = supergraph(
        "v0.3",
        &two_services(),
        vec![
            TypeDefinition::new(TypeKind::InputObject, "Options")
                .with_directive(join_type("A"))
                .with_directive(join_type("B"))
                .with_input_field(
                    InputValue::new("depth", TypeRef::named("Int")).with_directive(join_field("A")),
                ),
            query_in(&["A", "B"]),
        ],
    );
    schema.directive_definitions.push(DirectiveDefinition::new(
        "trace",
        vec![
            InputValue::new("options", TypeRef::named("Options")),
            InputValue::new("label", TypeRef::named("String")),
        ],
        false,
        vec![DirectiveLocation::Field],
    ));
    let subgraphs = extract_subgraphs_from_supergraph(schema, None).expect("well formed");
    let trace = |service: &str| {
        find(&subgraphs, service)
            .directive_definitions
            .iter()
            .find(|d| d.name == "trace")
            .expect("the directive was copied")
            .arguments
            .iter()
            .map(|a| a.name.clone())
            .collect::<Vec<String>>()
    };
    assert_eq!(trace("a"), vec!["options".to_string(), "label".to_string()]);
    assert_eq!(trace("b"), vec!["label".to_string()]);
    assert!(type_named(find(&subgraphs, "b"), "Options").is_none());
}

#[test]
fn extracted_types_have_the_kind_that_the_supergraph_gives_them() {
    let subgraphs = extract(supergraph(
        "v0.3",
        &two_services(),
        vec![
            TypeDefinition::new(TypeKind::Interface, "Node")
                .with_directive(join_type("A"))
                .with_field(Field::new("id", TypeRef::non_null("ID"))),
            TypeDefinition::new(TypeKind::Enum, "Color")
                .with_directive(join_type("A"))
                .with_directive(join_type("B"))
                .with_value(EnumValue::new("RED")),
            TypeDefinition::new(TypeKind::InputObject, "Filter")
                .with_directive(join_type("B"))
                .with_input_field(InputValue::new("color", TypeRef::named("Color"))),
            object("Product")
                .with_directive(join_type("A"))
                .with_directive(join_type("B"))
                .with_field(Field::new("id", TypeRef::non_null("ID"))),
            query_in(&["A", "B"]),
        ],
    ));
    let kind_in =
        |service: &str, name: &str| type_named(find(&subgraphs, service), name).map(|t| t.kind);
    assert!(kind_in("a", "Node") == Some(TypeKind::Interface));
    assert!(kind_in("b", "Node").is_none());
    assert!(kind_in("a", "Color") == Some(TypeKind::Enum));
    assert!(kind_in("b", "Color") == Some(TypeKind::Enum));
    assert!(kind_in("a", "Filter").is_none());
    assert!(kind_in("b", "Filter") == Some(TypeKind::InputObject));
    assert!(kind_in("a", "Product") == Some(TypeKind::Object));
    assert!(kind_in("b", "Product") == Some(TypeKind::Object));
    assert!(kind_in("a", "_Service") == Some(TypeKind::Object));
    assert!(kind_in("a", "_Any") == Some(TypeKind::Scalar));
}
