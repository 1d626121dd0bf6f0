//! The federation specification as a service's schema declares it: the
//! preamble with which every extracted schema starts, and the directive
//! applications that extraction attaches.
use crate::edits::shell;
use crate::schema::{
    ArgValue, ArgValueView, Argument, ArgumentView, Directive, DirectiveDefinition,
    DirectiveDefinitionView, DirectiveLocation, DirectiveView, EnumValue, EnumValueView, InputValue,
    InputValueView, Schema, SchemaView, TypeDefinition, TypeDefinitionView, TypeKind, TypeRef,
    TypeRefView,
};
use crate::seqs::lemma_deep_view_empty;
use vstd::prelude::*;
use vstd::string::*;

verus! {

/// The type expression that names `name`, nullable.
pub open spec fn named_type(name: Seq<char>) -> TypeRefView {
    TypeRefView { name, non_null: false, lists: Seq::empty() }
}

/// The type expression that names `name`, non-null.
pub open spec fn non_null_type(name: Seq<char>) -> TypeRefView {
    TypeRefView { name, non_null: true, lists: Seq::empty() }
}

/// An input value without default and without directives.
pub open spec fn input_value(name: Seq<char>, ty: TypeRefView) -> InputValueView {
    InputValueView { name, ty, default_value: None, directives: Seq::empty() }
}

/// A directive application with one argument.
pub open spec fn directive_with(
    name: Seq<char>,
    argument: Seq<char>,
    value: ArgValueView,
) -> DirectiveView {
    DirectiveView {
        name,
        arguments: seq![ArgumentView { name: argument, value }],
        extension: false,
    }
}

/// A directive application without arguments.
pub open spec fn plain_directive(name: Seq<char>) -> DirectiveView {
    DirectiveView { name, arguments: Seq::empty(), extension: false }
}

/// `@federation__key(fields: .., resolvable: ..)`, on an extension of the
/// type where `extension` is set.
pub open spec fn key_directive(fields: Seq<char>, resolvable: bool, extension: bool) -> DirectiveView {
    DirectiveView {
        name: "federation__key"@,
        arguments: seq![
            ArgumentView { name: "fields"@, value: ArgValueView::Str(fields) },
            ArgumentView { name: "resolvable"@, value: ArgValueView::Bool(resolvable) },
        ],
        extension,
    }
}

/// `@federation__requires(fields: ..)`.
pub open spec fn requires_directive(fields: Seq<char>) -> DirectiveView {
    directive_with("federation__requires"@, "fields"@, ArgValueView::Str(fields))
}

/// `@federation__provides(fields: ..)`.
pub open spec fn provides_directive(fields: Seq<char>) -> DirectiveView {
    directive_with("federation__provides"@, "fields"@, ArgValueView::Str(fields))
}

/// `@federation__external`, with the reason where there is one.
pub open spec fn external_directive(reason: Option<Seq<char>>) -> DirectiveView {
    match reason {
        Some(r) => directive_with("federation__external"@, "reason"@, ArgValueView::Str(r)),
        None => plain_directive("federation__external"@),
    }
}

/// `@federation__override(from: ..)`.
pub open spec fn override_directive(from: Seq<char>) -> DirectiveView {
    directive_with("federation__override"@, "from"@, ArgValueView::Str(from))
}

/// `@federation__shareable`.
pub open spec fn shareable_directive() -> DirectiveView {
    plain_directive("federation__shareable"@)
}

/// `@federation__interfaceObject`.
pub open spec fn interface_object_directive() -> DirectiveView {
    plain_directive("federation__interfaceObject"@)
}

/// The type expression that names `name`, nullable.
pub fn make_named_type(name: &str) -> (r: TypeRef)
    ensures
        r@ == named_type(name@),
{
    TypeRef { name: String::from_str(name), non_null: false, lists: Vec::new() }
}

/// The type expression that names `name`, non-null.
pub fn make_non_null_type(name: &str) -> (r: TypeRef)
    ensures
        r@ == non_null_type(name@),
{
    TypeRef { name: String::from_str(name), non_null: true, lists: Vec::new() }
}

/// An input value without default and without directives.
pub fn make_input_value(name: &str, ty: TypeRef) -> (r: InputValue)
    ensures
        r@ == input_value(name@, ty@),
{
    let r = InputValue {
        name: String::from_str(name),
        ty,
        default_value: None,
        directives: Vec::new(),
    };
    proof {
        lemma_deep_view_empty(r.directives);
    }
    r
}

/// A directive application with one argument.
pub fn make_directive_with(name: &str, argument: &str, value: ArgValue) -> (r: Directive)
    ensures
        r@ == directive_with(name@, argument@, value@),
{
    let a = Argument { name: String::from_str(argument), value };
    let r = Directive { name: String::from_str(name), arguments: vec![a], extension: false };
    assert(r.arguments.deep_view() =~= seq![a@]);
    r
}

/// A directive application without arguments.
pub fn make_plain_directive(name: &str) -> (r: Directive)
    ensures
        r@ == plain_directive(name@),
{
    let r = Directive { name: String::from_str(name), arguments: Vec::new(), extension: false };
    proof {
        lemma_deep_view_empty(r.arguments);
    }
    r
}

/// `@federation__key(fields: .., resolvable: ..)`.
pub fn make_key_directive(fields: &str, resolvable: bool, extension: bool) -> (r: Directive)
    ensures
        r@ == key_directive(fields@, resolvable, extension),
{
    let a = Argument { name: String::from_str("fields"), value: ArgValue::Str(String::from_str(fields)) };
    let b = Argument { name: String::from_str("resolvable"), value: ArgValue::Bool(resolvable) };
    let r = Directive { name: String::from_str("federation__key"), arguments: vec![a, b], extension };
    assert(r.arguments.deep_view() =~= seq![a@, b@]);
    r
}

/// `@federation__requires(fields: ..)`.
pub fn make_requires_directive(fields: &str) -> (r: Directive)
    ensures
        r@ == requires_directive(fields@),
{
    make_directive_with("federation__requires", "fields", ArgValue::Str(String::from_str(fields)))
}

/// `@federation__provides(fields: ..)`.
pub fn make_provides_directive(fields: &str) -> (r: Directive)
    ensures
        r@ == provides_directive(fields@),
{
    make_directive_with("federation__provides", "fields", ArgValue::Str(String::from_str(fields)))
}

/// `@federation__external`, with the reason where there is one.
pub fn make_external_directive(reason: Option<&str>) -> (r: Directive)
    ensures
        r@ == external_directive(
            match reason {
                Some(s) => Some(s@),
                None => None,
            },
        ),
{
    match reason {
        Some(s) => make_directive_with(
            "federation__external",
            "reason",
            ArgValue::Str(String::from_str(s)),
        ),
        None => make_plain_directive("federation__external"),
    }
}

/// `@federation__override(from: ..)`.
pub fn make_override_directive(from: &str) -> (r: Directive)
    ensures
        r@ == override_directive(from@),
{
    make_directive_with("federation__override", "from", ArgValue::Str(String::from_str(from)))
}

/// `@federation__shareable`.
pub fn make_shareable_directive() -> (r: Directive)
    ensures
        r@ == shareable_directive(),
{
    make_plain_directive("federation__shareable")
}

/// `@federation__interfaceObject`.
pub fn make_interface_object_directive() -> (r: Directive)
    ensures
        r@ == interface_object_directive(),
{
    make_plain_directive("federation__interfaceObject")
}

/// A directive definition.
pub open spec fn definition(
    name: Seq<char>,
    arguments: Seq<InputValueView>,
    repeatable: bool,
    locations: Seq<DirectiveLocation>,
) -> DirectiveDefinitionView {
    DirectiveDefinitionView { name, arguments, repeatable, locations }
}

/// A directive definition.
pub fn make_definition(
    name: &str,
    arguments: Vec<InputValue>,
    repeatable: bool,
    locations: Vec<DirectiveLocation>,
) -> (r: DirectiveDefinition)
    ensures
        r@ == definition(name@, arguments.deep_view(), repeatable, locations@),
{
    DirectiveDefinition { name: String::from_str(name), arguments, repeatable, locations }
}

/// No argument.
fn no_arguments() -> (r: Vec<InputValue>)
    ensures
        r.deep_view() == Seq::<InputValueView>::empty(),
{
    let r: Vec<InputValue> = Vec::new();
    proof {
        lemma_deep_view_empty(r);
    }
    r
}

/// One argument.
fn one_argument(a: InputValue) -> (r: Vec<InputValue>)
    ensures
        r.deep_view() == seq![a@],
{
    let r = vec![a];
    assert(r.deep_view() =~= seq![a@]);
    r
}

/// A scalar type without directives.
pub open spec fn scalar(name: Seq<char>) -> TypeDefinitionView {
    shell(name, TypeKind::Scalar, Seq::empty())
}

/// A scalar type without directives.
fn make_scalar(name: &str) -> (r: TypeDefinition)
    ensures
        r@ == scalar(name@),
{
    let r = TypeDefinition {
        name: String::from_str(name),
        kind: TypeKind::Scalar,
        directives: Vec::new(),
        implements: Vec::new(),
        fields: Vec::new(),
        members: Vec::new(),
        values: Vec::new(),
        input_fields: Vec::new(),
    };
    proof {
        lemma_deep_view_empty(r.directives);
        lemma_deep_view_empty(r.implements);
        lemma_deep_view_empty(r.fields);
        lemma_deep_view_empty(r.members);
        lemma_deep_view_empty(r.values);
        lemma_deep_view_empty(r.input_fields);
    }
    r
}

/// The enum of purposes that the linking specification defines.
pub open spec fn purpose_enum() -> TypeDefinitionView {
    TypeDefinitionView {
        values: seq![
            EnumValueView { name: "SECURITY"@, directives: Seq::empty() },
            EnumValueView { name: "EXECUTION"@, directives: Seq::empty() },
        ],
        ..shell("link__Purpose"@, TypeKind::Enum, Seq::empty())
    }
}

/// The enum of purposes that the linking specification defines.
fn make_purpose_enum() -> (r: TypeDefinition)
    ensures
        r@ == purpose_enum(),
{
    let a = EnumValue { name: String::from_str("SECURITY"), directives: Vec::new() };
    let b = EnumValue { name: String::from_str("EXECUTION"), directives: Vec::new() };
    proof {
        lemma_deep_view_empty(a.directives);
        lemma_deep_view_empty(b.directives);
    }
    let r = TypeDefinition {
        name: String::from_str("link__Purpose"),
        kind: TypeKind::Enum,
        directives: Vec::new(),
        implements: Vec::new(),
        fields: Vec::new(),
        members: Vec::new(),
        values: vec![a, b],
        input_fields: Vec::new(),
    };
    proof {
        lemma_deep_view_empty(r.directives);
        lemma_deep_view_empty(r.implements);
        lemma_deep_view_empty(r.fields);
        lemma_deep_view_empty(r.members);
        lemma_deep_view_empty(r.input_fields);
        assert(r.values.deep_view() =~= seq![a@, b@]);
    }
    r
}

/// The types of the preamble: the scalars and the enum of the linking and
/// federation specifications.
pub open spec fn preamble_types() -> Seq<TypeDefinitionView> {
    seq![
        scalar("link__Import"@),
        purpose_enum(),
        scalar("federation__FieldSet"@),
        scalar("federation__Scope"@),
    ]
}

/// `[link__Import]`.
pub open spec fn import_list_type() -> TypeRefView {
    TypeRefView { name: "link__Import"@, non_null: false, lists: seq![false] }
}

/// `[[federation__Scope!]!]!`.
pub open spec fn scopes_type() -> TypeRefView {
    TypeRefView { name: "federation__Scope"@, non_null: true, lists: seq![true, true] }
}

/// The arguments of `@link`.
pub open spec fn link_arguments() -> Seq<InputValueView> {
    seq![
        input_value("url"@, named_type("String"@)),
        input_value("as"@, named_type("String"@)),
        input_value("for"@, named_type("link__Purpose"@)),
        input_value("import"@, import_list_type()),
    ]
}

/// The arguments of `@federation__key`.
pub open spec fn key_arguments() -> Seq<InputValueView> {
    seq![
        input_value("fields"@, non_null_type("federation__FieldSet"@)),
        InputValueView {
            default_value: Some("true"@),
            ..input_value("resolvable"@, named_type("Boolean"@))
        },
    ]
}

/// The locations of a directive that marks any element of a type system but
/// the schema itself.
pub open spec fn element_locations() -> Seq<DirectiveLocation> {
    seq![
        DirectiveLocation::FieldDefinition,
        DirectiveLocation::Object,
        DirectiveLocation::Interface,
        DirectiveLocation::Union,
        DirectiveLocation::ArgumentDefinition,
        DirectiveLocation::Scalar,
        DirectiveLocation::Enum,
        DirectiveLocation::EnumValue,
        DirectiveLocation::InputObject,
        DirectiveLocation::InputFieldDefinition,
    ]
}

/// The locations of the directives of access control.
pub open spec fn access_locations() -> Seq<DirectiveLocation> {
    seq![
        DirectiveLocation::FieldDefinition,
        DirectiveLocation::Object,
        DirectiveLocation::Interface,
        DirectiveLocation::Scalar,
        DirectiveLocation::Enum,
    ]
}

/// The directive definitions of the preamble, at version 2.5 of the
/// federation specification.
pub open spec fn preamble_definitions() -> Seq<DirectiveDefinitionView> {
    seq![
        definition("link"@, link_arguments(), true, seq![DirectiveLocation::Schema]),
        definition(
            "federation__key"@,
            key_arguments(),
            true,
            seq![DirectiveLocation::Object, DirectiveLocation::Interface],
        ),
        definition(
            "federation__requires"@,
            seq![input_value("fields"@, non_null_type("federation__FieldSet"@))],
            false,
            seq![DirectiveLocation::FieldDefinition],
        ),
        definition(
            "federation__provides"@,
            seq![input_value("fields"@, non_null_type("federation__FieldSet"@))],
            false,
            seq![DirectiveLocation::FieldDefinition],
        ),
        definition(
            "federation__external"@,
            seq![input_value("reason"@, named_type("String"@))],
            false,
            seq![DirectiveLocation::Object, DirectiveLocation::FieldDefinition],
        ),
        definition(
            "federation__tag"@,
            seq![input_value("name"@, non_null_type("String"@))],
            true,
            element_locations().push(DirectiveLocation::Schema),
        ),
        definition(
            "federation__extends"@,
            Seq::empty(),
            false,
            seq![DirectiveLocation::Object, DirectiveLocation::Interface],
        ),
        definition(
            "federation__shareable"@,
            Seq::empty(),
            false,
            seq![DirectiveLocation::Object, DirectiveLocation::FieldDefinition],
        ),
        definition("federation__inaccessible"@, Seq::empty(), false, element_locations()),
        definition(
            "federation__override"@,
            seq![input_value("from"@, non_null_type("String"@))],
            false,
            seq![DirectiveLocation::FieldDefinition],
        ),
        definition(
            "federation__composeDirective"@,
            seq![input_value("name"@, named_type("String"@))],
            true,
            seq![DirectiveLocation::Schema],
        ),
        definition(
            "federation__interfaceObject"@,
            Seq::empty(),
            false,
            seq![DirectiveLocation::Object],
        ),
        definition("federation__authenticated"@, Seq::empty(), false, access_locations()),
        definition(
            "federation__requiresScopes"@,
            seq![input_value("scopes"@, scopes_type())],
            false,
            access_locations(),
        ),
    ]
}

/// An `@link` to `url`, on an extension of the schema.
pub open spec fn link_to(url: Seq<char>) -> DirectiveView {
    DirectiveView { extension: true, ..directive_with("link"@, "url"@, ArgValueView::Str(url)) }
}

/// The schema with which every service starts: the links to the linking
/// specification and to version 2.5 of the federation specification, and the
/// definitions of their directives, scalars and enum.
pub open spec fn preamble() -> SchemaView {
    SchemaView {
        directives: seq![
            link_to("https://specs.apollo.dev/link/v1.0"@),
            link_to("https://specs.apollo.dev/federation/v2.5"@),
        ],
        query_type: None,
        mutation_type: None,
        subscription_type: None,
        types: preamble_types(),
        directive_definitions: preamble_definitions(),
    }
}

/// An `@link` to `url`, on an extension of the schema.
fn make_link_to(url: &str) -> (r: Directive)
    ensures
        r@ == link_to(url@),
{
    let mut d = make_directive_with("link", "url", ArgValue::Str(String::from_str(url)));
    d.extension = true;
    d
}

/// The locations of a directive that marks any element of a type system but
/// the schema itself.
fn make_element_locations() -> (r: Vec<DirectiveLocation>)
    ensures
        r@ == element_locations(),
{
    let r = vec![
        DirectiveLocation::FieldDefinition,
        DirectiveLocation::Object,
        DirectiveLocation::Interface,
        DirectiveLocation::Union,
        DirectiveLocation::ArgumentDefinition,
        DirectiveLocation::Scalar,
        DirectiveLocation::Enum,
        DirectiveLocation::EnumValue,
        DirectiveLocation::InputObject,
        DirectiveLocation::InputFieldDefinition,
    ];
    assert(r@ =~= element_locations());
    r
}

/// The locations of the directives of access control.
fn make_access_locations() -> (r: Vec<DirectiveLocation>)
    ensures
        r@ == access_locations(),
{
    let r = vec![
        DirectiveLocation::FieldDefinition,
        DirectiveLocation::Object,
        DirectiveLocation::Interface,
        DirectiveLocation::Scalar,
        DirectiveLocation::Enum,
    ];
    assert(r@ =~= access_locations());
    r
}

/// The arguments of `@link`.
fn make_link_arguments() -> (r: Vec<InputValue>)
    ensures
        r.deep_view() == link_arguments(),
{
    let a = make_input_value("url", make_named_type("String"));
    let b = make_input_value("as", make_named_type("String"));
    let c = make_input_value("for", make_named_type("link__Purpose"));
    let import_type = TypeRef {
        name: String::from_str("link__Import"),
        non_null: false,
        lists: vec![false],
    };
    assert(import_type.lists@ =~= seq![false]);
    let d = make_input_value("import", import_type);
    let r = vec![a, b, c, d];
    assert(r.deep_view() =~= link_arguments());
    r
}

/// The arguments of `@federation__key`.
fn make_key_arguments() -> (r: Vec<InputValue>)
    ensures
        r.deep_view() == key_arguments(),
{
    let a = make_input_value("fields", make_non_null_type("federation__FieldSet"));
    let mut b = make_input_value("resolvable", make_named_type("Boolean"));
    b.default_value = Some(String::from_str("true"));
    let r = vec![a, b];
    assert(r.deep_view() =~= key_arguments());
    r
}

/// The definitions of the directives that take field sets, and of
/// `@federation__external` and `@federation__tag`.
fn make_first_definitions() -> (r: Vec<DirectiveDefinition>)
    ensures
        r.deep_view() == preamble_definitions().take(6),
{
    let d0 = make_definition("link", make_link_arguments(), true, vec![DirectiveLocation::Schema]);
    let d1 = make_definition(
        "federation__key",
        make_key_arguments(),
        true,
        vec![DirectiveLocation::Object, DirectiveLocation::Interface],
    );
    let d2 = make_definition(
        "federation__requires",
        one_argument(make_input_value("fields", make_non_null_type("federation__FieldSet"))),
        false,
        vec![DirectiveLocation::FieldDefinition],
    );
    let d3 = make_definition(
        "federation__provides",
        one_argument(make_input_value("fields", make_non_null_type("federation__FieldSet"))),
        false,
        vec![DirectiveLocation::FieldDefinition],
    );
    let d4 = make_definition(
        "federation__external",
        one_argument(make_input_value("reason", make_named_type("String"))),
        false,
        vec![DirectiveLocation::Object, DirectiveLocation::FieldDefinition],
    );
    let mut tag_locations = make_element_locations();
    tag_locations.push(DirectiveLocation::Schema);
    let d5 = make_definition(
        "federation__tag",
        one_argument(make_input_value("name", make_non_null_type("String"))),
        true,
        tag_locations,
    );
    assert(d0@.locations =~= seq![DirectiveLocation::Schema]);
    assert(d1@.locations =~= seq![DirectiveLocation::Object, DirectiveLocation::Interface]);
    assert(d2@.locations =~= seq![DirectiveLocation::FieldDefinition]);
    assert(d3@.locations =~= seq![DirectiveLocation::FieldDefinition]);
    assert(d4@.locations =~= seq![DirectiveLocation::Object, DirectiveLocation::FieldDefinition]);
    let r = vec![d0, d1, d2, d3, d4, d5];
    assert(r.deep_view() =~= preamble_definitions().take(6));
    r
}

/// The definitions of the remaining directives.
fn make_last_definitions() -> (r: Vec<DirectiveDefinition>)
    ensures
        r.deep_view() == preamble_definitions().skip(6),
{
    let d6 = make_definition(
        "federation__extends",
        no_arguments(),
        false,
        vec![DirectiveLocation::Object, DirectiveLocation::Interface],
    );
    let d7 = make_definition(
        "federation__shareable",
        no_arguments(),
        false,
        vec![DirectiveLocation::Object, DirectiveLocation::FieldDefinition],
    );
    let d8 = make_definition(
        "federation__inaccessible",
        no_arguments(),
        false,
        make_element_locations(),
    );
    let d9 = make_definition(
        "federation__override",
        one_argument(make_input_value("from", make_non_null_type("String"))),
        false,
        vec![DirectiveLocation::FieldDefinition],
    );
    let d10 = make_definition(
        "federation__composeDirective",
        one_argument(make_input_value("name", make_named_type("String"))),
        true,
        vec![DirectiveLocation::Schema],
    );
    let d11 = make_definition(
        "federation__interfaceObject",
        no_arguments(),
        false,
        vec![DirectiveLocation::Object],
    );
    let d12 = make_definition(
        "federation__authenticated",
        no_arguments(),
        false,
        make_access_locations(),
    );
    let scopes = TypeRef {
        name: String::from_str("federation__Scope"),
        non_null: true,
        lists: vec![true, true],
    };
    assert(scopes.lists@ =~= seq![true, true]);
    let d13 = make_definition(
        "federation__requiresScopes",
        one_argument(make_input_value("scopes", scopes)),
        false,
        make_access_locations(),
    );
    assert(d6@.locations =~= seq![DirectiveLocation::Object, DirectiveLocation::Interface]);
    assert(d7@.locations =~= seq![DirectiveLocation::Object, DirectiveLocation::FieldDefinition]);
    assert(d9@.locations =~= seq![DirectiveLocation::FieldDefinition]);
    assert(d10@.locations =~= seq![DirectiveLocation::Schema]);
    assert(d11@.locations =~= seq![DirectiveLocation::Object]);
    let r = vec![d6, d7, d8, d9, d10, d11, d12, d13];
    assert(r.deep_view() =~= preamble_definitions().skip(6));
    r
}

/// The schema with which every service starts.
pub fn new_empty_fed_2_subgraph_schema() -> (r: Schema)
    ensures
        r@ == preamble(),
{
    let l0 = make_link_to("https://specs.apollo.dev/link/v1.0");
    let l1 = make_link_to("https://specs.apollo.dev/federation/v2.5");
    let directives = vec![l0, l1];
    assert(directives.deep_view() =~= preamble().directives);
    let t0 = make_scalar("link__Import");
    let t1 = make_purpose_enum();
    let t2 = make_scalar("federation__FieldSet");
    let t3 = make_scalar("federation__Scope");
    let types = vec![t0, t1, t2, t3];
    assert(types.deep_view() =~= preamble_types());
    let mut directive_definitions = make_first_definitions();
    let mut last = make_last_definitions();
    let ghost first_view = directive_definitions.deep_view();
    let ghost last_view = last.deep_view();
    directive_definitions.append(&mut last);
    assert(directive_definitions.deep_view() =~= first_view + last_view);
    assert(preamble_definitions().take(6) + preamble_definitions().skip(6)
        =~= preamble_definitions());
    Schema {
        directives,
        query_type: None,
        mutation_type: None,
        subscription_type: None,
        types,
        directive_definitions,
    }
}

} // verus!
