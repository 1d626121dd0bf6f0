use subgraph_extraction::error::FederationError;
use subgraph_extraction::federation::new_empty_fed_2_subgraph_schema;
use subgraph_extraction::ordered::{GraphNames, OwnerFlags};
use subgraph_extraction::schema::{DirectiveLocation, TypeKind};
use subgraph_extraction::subgraphs::{get_subgraph, FederationSubgraph, FederationSubgraphs};

fn service(name: &str) -> FederationSubgraph {
    FederationSubgraph {
        name: name.to_string(),
        url: format!("http://{}", name),
        schema: new_empty_fed_2_subgraph_schema(),
    }
}

#[test]
fn a_new_registry_is_empty() {
    let registry = FederationSubgraphs::new();
    assert_eq!(registry.len(), 0);
    assert!(registry.get("a").is_none());
}

#[test]
fn added_services_are_found_by_name_and_kept_in_order() {
    let mut registry = FederationSubgraphs::new();
    for name in ["delta", "alpha", "charlie", "bravo"] {
        assert_eq!(registry.add(service(name)), Ok(()));
    }
    let names: Vec<&str> = registry.subgraphs.iter().map(|s| s.name.as_str()).collect();
    assert_eq!(names, vec!["alpha", "bravo", "charlie", "delta"]);
    assert_eq!(registry.len(), 4);
    assert_eq!(registry.index_of("charlie"), Some(2));
    assert_eq!(registry.get("bravo").expect("bravo").url, "http://bravo");
}

#[test]
fn the_registry_hands_its_services_out_by_name() {
    let mut registry = FederationSubgraphs::new();
    for name in ["b", "c", "a"] {
        assert_eq!(registry.add(service(name)), Ok(()));
    }
    let listed: Vec<(String, String)> =
        registry.into_iter().into_iter().map(|(name, s)| (name, s.url)).collect();
    assert_eq!(
        listed,
        vec![
            ("a".to_string(), "http://a".to_string()),
            ("b".to_string(), "http://b".to_string()),
            ("c".to_string(), "http://c".to_string()),
        ]
    );
}

#[test]
fn a_second_service_of_one_name_is_refused() {
    let mut registry = FederationSubgraphs::new();
    assert_eq!(registry.add(service("a")), Ok(()));
    assert_eq!(
        registry.add(service("a")),
        Err(FederationError::InvalidFederationSupergraph {
            message: "A subgraph named \"a\" already exists".to_string()
        })
    );
    assert_eq!(registry.len(), 1);
    assert_eq!(registry.get("a").expect("a is still there").url, "http://a");
}

#[test]
fn names_are_ordered_as_strings_are() {
    let mut registry = FederationSubgraphs::new();
    for name in ["b", "ab", "a", "B", "", "é"] {
        assert_eq!(registry.add(service(name)), Ok(()));
    }
    let mut expected = vec!["b", "ab", "a", "B", "", "é"];
    expected.sort();
    let names: Vec<&str> = registry.subgraphs.iter().map(|s| s.name.as_str()).collect();
    assert_eq!(names, expected);
}

#[test]
fn a_graph_value_resolves_to_the_position_of_its_service() {
    let mut registry = FederationSubgraphs::new();
    for name in ["b", "a"] {
        assert_eq!(registry.add(service(name)), Ok(()));
    }
    let names = GraphNames::new()
        .insert("B".to_string(), "b".to_string())
        .insert("A".to_string(), "a".to_string())
        .insert("C".to_string(), "c".to_string());
    assert_eq!(get_subgraph(&registry, &names, "A"), Ok(0));
    assert_eq!(get_subgraph(&registry, &names, "B"), Ok(1));
    assert_eq!(
        get_subgraph(&registry, &names, "D"),
        Err(FederationError::Internal {
            message: "Invalid graph enum_value \"D\": does not match an enum value defined in the @join__Graph enum"
                .to_string()
        })
    );
    assert_eq!(
        get_subgraph(&registry, &names, "C"),
        Err(FederationError::Internal {
            message: "All subgraphs should have been created by \"collect_empty_subgraphs()\""
                .to_string()
        })
    );
}

#[test]
fn owner_flags_keep_the_order_of_insertion() {
    let flags = OwnerFlags::new()
        .insert("B".to_string(), false)
        .insert("A".to_string(), true)
        .insert("C".to_string(), false);
    assert_eq!(flags.len(), 3);
    assert_eq!(flags.key_at(0), "B");
    assert_eq!(flags.key_at(1), "A");
    assert_eq!(flags.key_at(2), "C");
    assert_eq!(flags.get("A"), Some(true));
    assert_eq!(flags.get("B"), Some(false));
    assert_eq!(flags.get("D"), None);
    assert!(flags.contains_key("C"));
    assert!(!flags.contains_key("c"));
}

#[test]
fn a_key_given_twice_keeps_its_place_and_takes_the_later_value() {
    let flags = OwnerFlags::new()
        .insert("B".to_string(), false)
        .insert("A".to_string(), false)
        .insert("B".to_string(), true);
    assert_eq!(flags.len(), 2);
    assert_eq!(flags.key_at(0), "B");
    assert_eq!(flags.get("B"), Some(true));
    let names = GraphNames::new()
        .insert("X".to_string(), "one".to_string())
        .insert("Y".to_string(), "two".to_string())
        .insert("X".to_string(), "three".to_string());
    assert_eq!(names.len(), 2);
    assert_eq!(names.key_at(0), "X");
    assert_eq!(names.key_at(1), "Y");
    assert_eq!(names.get("X"), Some("three".to_string()));
    assert_eq!(names.get("Z"), None);
}

#[test]
fn an_empty_map_has_no_entry() {
    assert_eq!(OwnerFlags::new().len(), 0);
    assert_eq!(OwnerFlags::new().get("A"), None);
    assert_eq!(GraphNames::new().len(), 0);
}

#[test]
fn the_preamble_links_the_federation_specification() {
    let schema = new_empty_fed_2_subgraph_schema();
    assert_eq!(schema.directives.len(), 2);
    assert!(schema.directives.iter().all(|d| d.name == "link" && d.extension));
    let federation = schema.find_link("federation").expect("the preamble links federation");
    assert_eq!(federation.url.version.major, 2);
    assert_eq!(federation.url.version.minor, 5);
    assert_eq!(federation.spec_name, "federation");
    assert!(schema.is_core_schema());
    let names: Vec<&str> = schema.types.iter().map(|t| t.name.as_str()).collect();
    assert_eq!(
        names,
        vec!["link__Import", "link__Purpose", "federation__FieldSet", "federation__Scope"]
    );
    assert_eq!(schema.types[1].kind, TypeKind::Enum);
    assert_eq!(schema.directive_definitions.len(), 14);
    let key = &schema.directive_definitions[1];
    assert_eq!(key.name, "federation__key");
    assert!(key.repeatable);
    assert_eq!(key.locations, vec![DirectiveLocation::Object, DirectiveLocation::Interface]);
    assert_eq!(key.arguments[1].default_value, Some("true".to_string()));
    assert_eq!(schema.query_type, None);
}
