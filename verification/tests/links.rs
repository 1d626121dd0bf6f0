use subgraph_extraction::error::FederationError;
use subgraph_extraction::join::{
    read_field_arguments, read_graph_arguments, read_target_arguments, read_type_arguments,
    FieldArguments, GraphArguments, TargetArguments, TypeArguments,
};
use subgraph_extraction::links::{read_link, Url, Version};
use subgraph_extraction::schema::{ArgValue, Directive, Schema};
use subgraph_extraction::supergraph::validate_supergraph;

#[test]
fn a_specification_url_has_a_domain_a_name_and_a_version() {
    let url = Url::parse("https://specs.apollo.dev/join/v0.3").expect("a specification URL");
    assert_eq!(url.domain, "https://specs.apollo.dev");
    assert_eq!(url.name, "join");
    assert_eq!(url.version, Version { major: 0, minor: 3 });
    let other = Url::parse("https://example.com/my/spec/v12.345").expect("a specification URL");
    assert_eq!(other.domain, "https://example.com/my");
    assert_eq!(other.name, "spec");
    assert_eq!(other.version, Version { major: 12, minor: 345 });
}

#[test]
fn a_text_that_is_no_specification_url_is_not_read() {
    for text in [
        "",
        "join",
        "join/v0.3",
        "https://specs.apollo.dev/join/0.3",
        "https://specs.apollo.dev/join/v0",
        "https://specs.apollo.dev/join/v0.",
        "https://specs.apollo.dev/join/v.3",
        "https://specs.apollo.dev/join/v0.3.1",
        "https://specs.apollo.dev/join/v0.x",
        "https://specs.apollo.dev//v0.3",
        "https://specs.apollo.dev/join/v0.3/",
        "https://specs.apollo.dev/join/v4294967296.0",
    ] {
        assert_eq!(Url::parse(text), None, "{}", text);
    }
    assert_eq!(
        Url::parse("a/b/v4294967295.007").expect("fits in 32 bits").version,
        Version { major: 4294967295, minor: 7 }
    );
}

#[test]
fn a_link_is_read_from_link_and_core_applications() {
    let link = read_link(
        &Directive::new("link")
            .with_string("url", "https://specs.apollo.dev/join/v0.3")
            .with_string("as", "j"),
    )
    .expect("a link");
    assert_eq!(link.spec_name, "j");
    assert_eq!(link.url.name, "join");
    let core = read_link(
        &Directive::new("core").with_string("feature", "https://specs.apollo.dev/join/v0.1"),
    )
    .expect("a link");
    assert_eq!(core.spec_name, "join");
    assert_eq!(core.url.version, Version { major: 0, minor: 1 });
    assert!(read_link(&Directive::new("link").with_string("feature", "https://x/y/v1.0")).is_none());
    assert!(read_link(&Directive::new("other").with_string("url", "https://x/y/v1.0")).is_none());
    assert!(read_link(&Directive::new("link").with_enum("url", "https://x/y/v1.0")).is_none());
}

fn linked(urls: &[&str]) -> Schema {
    let mut schema = Schema::new();
    for url in urls {
        schema.directives.push(Directive::new("link").with_string("url", url));
    }
    schema
}

#[test]
fn the_specifications_of_a_supergraph_are_resolved() {
    let specs = validate_supergraph(&linked(&[
        "https://specs.apollo.dev/link/v1.0",
        "https://specs.apollo.dev/join/v0.2",
    ]))
    .expect("a supergraph");
    assert_eq!(specs.link_name, "link");
    assert_eq!(specs.join.spec_name, "join");
    assert_eq!(specs.join.version, Version { major: 0, minor: 2 });
    assert!(specs.is_spec_type("join__Graph"));
    assert!(specs.is_spec_type("link__Import"));
    assert!(!specs.is_spec_type("join_Graph"));
    assert!(!specs.is_spec_type("Product"));
    assert!(!specs.is_spec_type("federation__FieldSet"));
}

#[test]
fn a_supergraph_must_link_both_specifications_at_a_known_version() {
    let message = |schema: &Schema| match validate_supergraph(schema) {
        Err(FederationError::InvalidFederationSupergraph { message }) => message,
        other => panic!("expected a malformed-supergraph error, got {:?}", other),
    };
    assert_eq!(
        message(&linked(&["https://specs.apollo.dev/join/v0.3"])),
        "Invalid supergraph: must be a core schema"
    );
    assert_eq!(
        message(&linked(&["https://specs.apollo.dev/link/v1.0"])),
        "Invalid supergraph: must use the join spec"
    );
    assert_eq!(
        message(&linked(&[
            "https://specs.apollo.dev/link/v1.0",
            "https://specs.apollo.dev/join/v0.4",
        ])),
        "Invalid supergraph: uses unsupported join spec version 0.4 (supported versions: 0.1, 0.2, 0.3)"
    );
    assert_eq!(
        message(&linked(&[
            "https://specs.apollo.dev/link/v1.0",
            "https://specs.apollo.dev/join/v1.2",
        ])),
        "Invalid supergraph: uses unsupported join spec version 1.2 (supported versions: 0.1, 0.2, 0.3)"
    );
    assert_eq!(
        message(&linked(&[
            "https://specs.apollo.dev/link/v1.0",
            "https://elsewhere.dev/join/v0.3",
        ])),
        "Invalid supergraph: must use the join spec"
    );
}

#[test]
fn type_arguments_have_their_defaults() {
    let d = Directive::new("join__type").with_enum("graph", "A");
    assert_eq!(
        read_type_arguments(&d),
        Ok(TypeArguments {
            graph: "A".to_string(),
            key: None,
            extension: false,
            resolvable: true,
            is_interface_object: false,
        })
    );
    let full = Directive::new("join__type")
        .with_enum("graph", "B")
        .with_string("key", "id sku")
        .with_bool("extension", true)
        .with_bool("resolvable", false)
        .with_bool("isInterfaceObject", true);
    assert_eq!(
        read_type_arguments(&full),
        Ok(TypeArguments {
            graph: "B".to_string(),
            key: Some("id sku".to_string()),
            extension: true,
            resolvable: false,
            is_interface_object: true,
        })
    );
}

#[test]
fn a_required_argument_must_be_there_and_of_its_kind() {
    assert_eq!(
        read_type_arguments(&Directive::new("join__type")),
        Err(FederationError::Internal {
            message: "Required argument \"graph\" of directive \"@join__type\" was not present"
                .to_string()
        })
    );
    assert_eq!(
        read_type_arguments(
            &Directive::new("join__type").with_enum("graph", "A").with_bool("key", true)
        ),
        Err(FederationError::Internal {
            message: "Argument \"key\" of directive \"@join__type\" is not of the expected kind"
                .to_string()
        })
    );
    assert_eq!(
        read_graph_arguments(&Directive::new("join__graph").with_string("name", "a")),
        Err(FederationError::Internal {
            message: "Required argument \"url\" of directive \"@join__graph\" was not present"
                .to_string()
        })
    );
}

#[test]
fn the_other_applications_are_read_argument_by_argument() {
    assert_eq!(
        read_graph_arguments(
            &Directive::new("join__graph").with_string("name", "a").with_string("url", "http://a")
        ),
        Ok(GraphArguments { name: "a".to_string(), url: "http://a".to_string() })
    );
    assert_eq!(read_field_arguments(&Directive::new("join__field")), Ok(FieldArguments::none()));
    assert_eq!(
        read_field_arguments(
            &Directive::new("join__field")
                .with_enum("graph", "A")
                .with_string("requires", "a")
                .with_string("provides", "b")
                .with_string("type", "Int")
                .with_bool("external", true)
                .with_string("override", "c")
                .with_bool("usedOverridden", false)
                .with_argument("unknown", ArgValue::Other("1".to_string()))
        ),
        Ok(FieldArguments {
            graph: Some("A".to_string()),
            required: Some("a".to_string()),
            provides: Some("b".to_string()),
            type_: Some("Int".to_string()),
            external: Some(true),
            override_: Some("c".to_string()),
            user_overridden: Some(false),
        })
    );
    assert_eq!(
        read_target_arguments(
            &Directive::new("join__implements").with_enum("graph", "A").with_string("interface", "I"),
            "interface"
        ),
        Ok(TargetArguments { graph: "A".to_string(), target: "I".to_string() })
    );
}
