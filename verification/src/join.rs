//! The join specification: its supported versions, the names of its
//! directives in a supergraph, and the typed reading of the arguments of each
//! of its directives.
use crate::error::{internal, ErrorView, FederationError};
use crate::links::Version;
use crate::schema::{ArgValue, ArgValueView, Directive, DirectiveView};
use crate::text::{concat2, concat5};
use vstd::prelude::*;
use vstd::string::*;

verus! {

/// What a fallible computation returns, held against the value expected of
/// it.
pub open spec fn yields<T: DeepView>(
    r: Result<T, FederationError>,
    expected: Result<T::V, ErrorView>,
) -> bool {
    match expected {
        Ok(v) => r is Ok && r->Ok_0.deep_view() == v,
        Err(e) => r is Err && r->Err_0@ == e,
    }
}

/// The name that an element of a linked specification has in the schema: the
/// specification's name there, two underscores, and the element's own name.
pub open spec fn element_name(spec_name: Seq<char>, element: Seq<char>) -> Seq<char> {
    spec_name + "__"@ + element
}

/// The name that an element of a linked specification has in the schema.
pub fn element_name_of(spec_name: &str, element: &str) -> (r: String)
    ensures
        r@ == element_name(spec_name@, element@),
{
    let mut r = concat2(spec_name, "__");
    r.append(element);
    r
}

/// Whether extraction knows the given version of the join specification.
pub open spec fn is_supported_join_version(v: Version) -> bool {
    v.major == 0 && 1 <= v.minor <= 3
}

/// The mathematical value of a `JoinSpec`.
pub struct JoinSpecView {
    pub version: Version,
    pub spec_name: Seq<char>,
}

/// The join specification as a supergraph links it: its version, and the name
/// that prefixes its elements in the supergraph.
#[derive(Debug, PartialEq, Eq)]
pub struct JoinSpec {
    pub version: Version,
    pub spec_name: String,
}

impl View for JoinSpec {
    type V = JoinSpecView;

    open spec fn view(&self) -> JoinSpecView {
        JoinSpecView { version: self.version, spec_name: self.spec_name@ }
    }
}

impl DeepView for JoinSpec {
    type V = JoinSpecView;

    open spec fn deep_view(&self) -> JoinSpecView {
        self@
    }
}

/// What is said of a directive application that lacks a required argument.
pub open spec fn msg_missing_argument(directive: Seq<char>, argument: Seq<char>) -> Seq<char> {
    "Required argument \""@ + argument + "\" of directive \"@"@ + directive + "\" was not present"@
}

/// What is said of an argument whose value is of another kind than asked for.
pub open spec fn msg_argument_kind(directive: Seq<char>, argument: Seq<char>) -> Seq<char> {
    "Argument \""@ + argument + "\" of directive \"@"@ + directive
        + "\" is not of the expected kind"@
}

/// The string that `d` gives to `name`, where it gives one.
pub open spec fn optional_string(d: DirectiveView, name: Seq<char>) -> Result<
    Option<Seq<char>>,
    ErrorView,
> {
    match d.argument(name) {
        None => Ok(None),
        Some(ArgValueView::Str(s)) => Ok(Some(s)),
        Some(_) => Err(internal(msg_argument_kind(d.name, name))),
    }
}

/// The string that `d` gives to `name`.
pub open spec fn required_string(d: DirectiveView, name: Seq<char>) -> Result<
    Seq<char>,
    ErrorView,
> {
    match d.argument(name) {
        None => Err(internal(msg_missing_argument(d.name, name))),
        Some(ArgValueView::Str(s)) => Ok(s),
        Some(_) => Err(internal(msg_argument_kind(d.name, name))),
    }
}

/// The enum value that `d` gives to `name`, where it gives one.
pub open spec fn optional_enum(d: DirectiveView, name: Seq<char>) -> Result<
    Option<Seq<char>>,
    ErrorView,
> {
    match d.argument(name) {
        None => Ok(None),
        Some(ArgValueView::Enum(s)) => Ok(Some(s)),
        Some(_) => Err(internal(msg_argument_kind(d.name, name))),
    }
}

/// The enum value that `d` gives to `name`.
pub open spec fn required_enum(d: DirectiveView, name: Seq<char>) -> Result<Seq<char>, ErrorView> {
    match d.argument(name) {
        None => Err(internal(msg_missing_argument(d.name, name))),
        Some(ArgValueView::Enum(s)) => Ok(s),
        Some(_) => Err(internal(msg_argument_kind(d.name, name))),
    }
}

/// The boolean that `d` gives to `name`, where it gives one.
pub open spec fn optional_bool(d: DirectiveView, name: Seq<char>) -> Result<
    Option<bool>,
    ErrorView,
> {
    match d.argument(name) {
        None => Ok(None),
        Some(ArgValueView::Bool(b)) => Ok(Some(b)),
        Some(_) => Err(internal(msg_argument_kind(d.name, name))),
    }
}

/// The error for an argument of the wrong kind.
fn argument_kind_error(d: &Directive, name: &str) -> (r: FederationError)
    ensures
        r@ == internal(msg_argument_kind(d@.name, name@)),
{
    FederationError::internal(
        concat5(
            "Argument \"",
            name,
            "\" of directive \"@",
            d.name.as_str(),
            "\" is not of the expected kind",
        ),
    )
}

/// The error for a required argument that is absent.
fn missing_argument_error(d: &Directive, name: &str) -> (r: FederationError)
    ensures
        r@ == internal(msg_missing_argument(d@.name, name@)),
{
    FederationError::internal(
        concat5(
            "Required argument \"",
            name,
            "\" of directive \"@",
            d.name.as_str(),
            "\" was not present",
        ),
    )
}

/// The string that `d` gives to `name`, where it gives one.
pub fn read_optional_string(d: &Directive, name: &str) -> (r: Result<
    Option<String>,
    FederationError,
>)
    ensures
        yields(r, optional_string(d@, name@)),
{
    match d.argument(name) {
        None => Ok(None),
        Some(ArgValue::Str(s)) => Ok(Some(s.clone())),
        Some(_) => Err(argument_kind_error(d, name)),
    }
}

/// The string that `d` gives to `name`.
pub fn read_required_string(d: &Directive, name: &str) -> (r: Result<String, FederationError>)
    ensures
        yields(r, required_string(d@, name@)),
{
    match d.argument(name) {
        None => Err(missing_argument_error(d, name)),
        Some(ArgValue::Str(s)) => Ok(s.clone()),
        Some(_) => Err(argument_kind_error(d, name)),
    }
}

/// The enum value that `d` gives to `name`, where it gives one.
pub fn read_optional_enum(d: &Directive, name: &str) -> (r: Result<
    Option<String>,
    FederationError,
>)
    ensures
        yields(r, optional_enum(d@, name@)),
{
    match d.argument(name) {
        None => Ok(None),
        Some(ArgValue::Enum(s)) => Ok(Some(s.clone())),
        Some(_) => Err(argument_kind_error(d, name)),
    }
}

/// The enum value that `d` gives to `name`.
pub fn read_required_enum(d: &Directive, name: &str) -> (r: Result<String, FederationError>)
    ensures
        yields(r, required_enum(d@, name@)),
{
    match d.argument(name) {
        None => Err(missing_argument_error(d, name)),
        Some(ArgValue::Enum(s)) => Ok(s.clone()),
        Some(_) => Err(argument_kind_error(d, name)),
    }
}

/// The boolean that `d` gives to `name`, where it gives one.
pub fn read_optional_bool(d: &Directive, name: &str) -> (r: Result<Option<bool>, FederationError>)
    ensures
        yields(r, optional_bool(d@, name@)),
{
    match d.argument(name) {
        None => Ok(None),
        Some(ArgValue::Bool(b)) => Ok(Some(*b)),
        Some(_) => Err(argument_kind_error(d, name)),
    }
}

/// The mathematical value of a `GraphArguments`.
pub struct GraphArgumentsView {
    pub name: Seq<char>,
    pub url: Seq<char>,
}

/// The arguments of the directive that names a service on a value of the
/// graph enumeration.
#[derive(Debug, PartialEq, Eq)]
pub struct GraphArguments {
    pub name: String,
    pub url: String,
}

impl DeepView for GraphArguments {
    type V = GraphArgumentsView;

    open spec fn deep_view(&self) -> GraphArgumentsView {
        GraphArgumentsView { name: self.name@, url: self.url@ }
    }
}

/// The mathematical value of a `TypeArguments`.
pub struct TypeArgumentsView {
    pub graph: Seq<char>,
    pub key: Option<Seq<char>>,
    pub extension: bool,
    pub resolvable: bool,
    pub is_interface_object: bool,
}

/// The arguments of a type-level provenance application.
#[derive(Debug, PartialEq, Eq)]
pub struct TypeArguments {
    pub graph: String,
    pub key: Option<String>,
    pub extension: bool,
    pub resolvable: bool,
    pub is_interface_object: bool,
}

impl DeepView for TypeArguments {
    type V = TypeArgumentsView;

    open spec fn deep_view(&self) -> TypeArgumentsView {
        TypeArgumentsView {
            graph: self.graph@,
            key: self.key.deep_view(),
            extension: self.extension,
            resolvable: self.resolvable,
            is_interface_object: self.is_interface_object,
        }
    }
}

/// The mathematical value of a `FieldArguments`.
pub struct FieldArgumentsView {
    pub graph: Option<Seq<char>>,
    pub required: Option<Seq<char>>,
    pub provides: Option<Seq<char>>,
    pub type_: Option<Seq<char>>,
    pub external: Option<bool>,
    pub override_: Option<Seq<char>>,
    pub user_overridden: Option<bool>,
}

/// The arguments of a field-level provenance application.
#[derive(Debug, PartialEq, Eq)]
pub struct FieldArguments {
    pub graph: Option<String>,
    pub required: Option<String>,
    pub provides: Option<String>,
    pub type_: Option<String>,
    pub external: Option<bool>,
    pub override_: Option<String>,
    pub user_overridden: Option<bool>,
}

impl DeepView for FieldArguments {
    type V = FieldArgumentsView;

    open spec fn deep_view(&self) -> FieldArgumentsView {
        FieldArgumentsView {
            graph: self.graph.deep_view(),
            required: self.required.deep_view(),
            provides: self.provides.deep_view(),
            type_: self.type_.deep_view(),
            external: self.external,
            override_: self.override_.deep_view(),
            user_overridden: self.user_overridden,
        }
    }
}

impl FieldArgumentsView {
    /// The arguments of a field to which no provenance application is
    /// attached.
    pub open spec fn none() -> FieldArgumentsView {
        FieldArgumentsView {
            graph: None,
            required: None,
            provides: None,
            type_: None,
            external: None,
            override_: None,
            user_overridden: None,
        }
    }
}

impl FieldArguments {
    /// The arguments of a field to which no provenance application is
    /// attached.
    pub fn none() -> (r: FieldArguments)
        ensures
            r.deep_view() == FieldArgumentsView::none(),
    {
        FieldArguments {
            graph: None,
            required: None,
            provides: None,
            type_: None,
            external: None,
            override_: None,
            user_overridden: None,
        }
    }
}

/// The mathematical value of a `TargetArguments`.
pub struct TargetArgumentsView {
    pub graph: Seq<char>,
    pub target: Seq<char>,
}

/// The arguments of an application that names a service and one other type:
/// the interface of an implements-provenance application, or the member of a
/// union-member one.
#[derive(Debug, PartialEq, Eq)]
pub struct TargetArguments {
    pub graph: String,
    pub target: String,
}

impl DeepView for TargetArguments {
    type V = TargetArgumentsView;

    open spec fn deep_view(&self) -> TargetArgumentsView {
        TargetArgumentsView { graph: self.graph@, target: self.target@ }
    }
}

/// The arguments of the application `d` of the graph directive.
pub open spec fn graph_arguments(d: DirectiveView) -> Result<GraphArgumentsView, ErrorView> {
    match required_string(d, "name"@) {
        Err(e) => Err(e),
        Ok(name) => match required_string(d, "url"@) {
            Err(e) => Err(e),
            Ok(url) => Ok(GraphArgumentsView { name, url }),
        },
    }
}

/// The value of an optional boolean, with its default.
pub open spec fn or_default(value: Option<bool>, default: bool) -> bool {
    match value {
        Some(b) => b,
        None => default,
    }
}

/// The arguments of the type-level application `d`. An absent `extension` or
/// `isInterfaceObject` is false, an absent `resolvable` true.
pub open spec fn type_arguments(d: DirectiveView) -> Result<TypeArgumentsView, ErrorView> {
    match required_enum(d, "graph"@) {
        Err(e) => Err(e),
        Ok(graph) => match optional_string(d, "key"@) {
            Err(e) => Err(e),
            Ok(key) => match optional_bool(d, "extension"@) {
                Err(e) => Err(e),
                Ok(extension) => match optional_bool(d, "resolvable"@) {
                    Err(e) => Err(e),
                    Ok(resolvable) => match optional_bool(d, "isInterfaceObject"@) {
                        Err(e) => Err(e),
                        Ok(is_interface_object) => Ok(
                            TypeArgumentsView {
                                graph,
                                key,
                                extension: or_default(extension, false),
                                resolvable: or_default(resolvable, true),
                                is_interface_object: or_default(is_interface_object, false),
                            },
                        ),
                    },
                },
            },
        },
    }
}

/// The arguments of the field-level application `d`.
pub open spec fn field_arguments(d: DirectiveView) -> Result<FieldArgumentsView, ErrorView> {
    match optional_enum(d, "graph"@) {
        Err(e) => Err(e),
        Ok(graph) => match optional_string(d, "requires"@) {
            Err(e) => Err(e),
            Ok(required) => match optional_string(d, "provides"@) {
                Err(e) => Err(e),
                Ok(provides) => match optional_string(d, "type"@) {
                    Err(e) => Err(e),
                    Ok(type_) => match optional_bool(d, "external"@) {
                        Err(e) => Err(e),
                        Ok(external) => match optional_string(d, "override"@) {
                            Err(e) => Err(e),
                            Ok(override_) => match optional_bool(d, "usedOverridden"@) {
                                Err(e) => Err(e),
                                Ok(user_overridden) => Ok(
                                    FieldArgumentsView {
                                        graph,
                                        required,
                                        provides,
                                        type_,
                                        external,
                                        override_,
                                        user_overridden,
                                    },
                                ),
                            },
                        },
                    },
                },
            },
        },
    }
}

/// The arguments of the application `d`, which names a service and, under
/// `target`, one other type.
pub open spec fn target_arguments(d: DirectiveView, target: Seq<char>) -> Result<
    TargetArgumentsView,
    ErrorView,
> {
    match required_enum(d, "graph"@) {
        Err(e) => Err(e),
        Ok(graph) => match required_string(d, target) {
            Err(e) => Err(e),
            Ok(target) => Ok(TargetArgumentsView { graph, target }),
        },
    }
}

/// The arguments of the application `d` of the graph directive.
pub fn read_graph_arguments(d: &Directive) -> (r: Result<GraphArguments, FederationError>)
    ensures
        yields(r, graph_arguments(d@)),
{
    let name = read_required_string(d, "name")?;
    let url = read_required_string(d, "url")?;
    Ok(GraphArguments { name, url })
}

/// The arguments of the type-level application `d`.
pub fn read_type_arguments(d: &Directive) -> (r: Result<TypeArguments, FederationError>)
    ensures
        yields(r, type_arguments(d@)),
{
    let graph = read_required_enum(d, "graph")?;
    let key = read_optional_string(d, "key")?;
    let extension = read_optional_bool(d, "extension")?;
    let resolvable = read_optional_bool(d, "resolvable")?;
    let is_interface_object = read_optional_bool(d, "isInterfaceObject")?;
    Ok(
        TypeArguments {
            graph,
            key,
            extension: match extension {
                Some(b) => b,
                None => false,
            },
            resolvable: match resolvable {
                Some(b) => b,
                None => true,
            },
            is_interface_object: match is_interface_object {
                Some(b) => b,
                None => false,
            },
        },
    )
}

/// The arguments of the field-level application `d`.
pub fn read_field_arguments(d: &Directive) -> (r: Result<FieldArguments, FederationError>)
    ensures
        yields(r, field_arguments(d@)),
{
    let graph = read_optional_enum(d, "graph")?;
    let required = read_optional_string(d, "requires")?;
    let provides = read_optional_string(d, "provides")?;
    let type_ = read_optional_string(d, "type")?;
    let external = read_optional_bool(d, "external")?;
    let override_ = read_optional_string(d, "override")?;
    let user_overridden = read_optional_bool(d, "usedOverridden")?;
    Ok(FieldArguments { graph, required, provides, type_, external, override_, user_overridden })
}

/// The arguments of the application `d`, which names a service and, under
/// `target`, one other type.
pub fn read_target_arguments(d: &Directive, target: &str) -> (r: Result<
    TargetArguments,
    FederationError,
>)
    ensures
        yields(r, target_arguments(d@, target@)),
{
    let graph = read_required_enum(d, "graph")?;
    let target = read_required_string(d, target)?;
    Ok(TargetArguments { graph, target })
}

} // verus!
