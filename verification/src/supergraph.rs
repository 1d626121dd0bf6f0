//! What a supergraph must declare before anything is drawn from it: the
//! linking specification, and the join specification at a version that
//! extraction knows.
use crate::error::{ErrorView, FederationError, internal, invalid_supergraph};
use crate::join::{
    JoinSpec, JoinSpecView, element_name, element_name_of, is_supported_join_version, yields,
};
use crate::links::Version;
use crate::schema::{Schema, SchemaView};
use crate::text::{concat2, concat3, concat5, decimal_text, starts_with, u32_text};
use vstd::prelude::*;
use vstd::string::*;

verus! {

/// The mathematical value of a `Specs`.
pub struct SpecsView {
    pub link_name: Seq<char>,
    pub join: JoinSpecView,
}

/// The specifications that a supergraph is read by: the name under which it
/// links the linking specification, and the join specification.
#[derive(Debug, PartialEq, Eq)]
pub struct Specs {
    pub link_name: String,
    pub join: JoinSpec,
}

impl DeepView for Specs {
    type V = SpecsView;

    open spec fn deep_view(&self) -> SpecsView {
        SpecsView { link_name: self.link_name@, join: self.join@ }
    }
}

/// A version as `major.minor`.
pub open spec fn version_text(v: Version) -> Seq<char> {
    decimal_text(v.major as nat) + "."@ + decimal_text(v.minor as nat)
}

/// What is said of a version of the join specification that extraction does
/// not know: the version, and then the versions that it knows.
pub open spec fn msg_unsupported_join(v: Version) -> Seq<char> {
    "Invalid supergraph: uses unsupported join spec version "@ + version_text(v)
        + " (supported versions: 0.1, 0.2, 0.3)"@
}

/// The specifications by which `schema` is read as a supergraph. A schema that
/// does not link the linking specification, or the join specification, or
/// links a version of the latter that extraction does not know, is refused as
/// malformed.
pub open spec fn resolve_specs(schema: SchemaView) -> Result<SpecsView, ErrorView> {
    let link = if schema.find_link("link"@).is_some() {
        schema.find_link("link"@)
    } else {
        schema.find_link("core"@)
    };
    match link {
        None => Err(invalid_supergraph("Invalid supergraph: must be a core schema"@)),
        Some(l) => match schema.find_link("join"@) {
            None => Err(invalid_supergraph("Invalid supergraph: must use the join spec"@)),
            Some(j) => if is_supported_join_version(j.url.version) {
                Ok(
                    SpecsView {
                        link_name: l.spec_name,
                        join: JoinSpecView { version: j.url.version, spec_name: j.spec_name },
                    },
                )
            } else {
                Err(invalid_supergraph(msg_unsupported_join(j.url.version)))
            },
        },
    }
}

/// Whether the type `name` belongs to the linking or to the join
/// specification: its name starts with the name of one of them and two
/// underscores.
pub open spec fn is_spec_type(specs: SpecsView, name: Seq<char>) -> bool {
    (specs.link_name + "__"@).is_prefix_of(name) || (specs.join.spec_name + "__"@).is_prefix_of(
        name,
    )
}

/// What is said of a join directive that the supergraph does not define.
pub open spec fn msg_no_definition(element: Seq<char>) -> Seq<char> {
    "Unexpectedly could not find join spec's \""@ + element + "\" directive in schema"@
}

/// The name in `schema` of the join directive `element`, which the schema
/// must define.
pub open spec fn required_directive(
    schema: SchemaView,
    join: JoinSpecView,
    element: Seq<char>,
) -> Result<Seq<char>, ErrorView> {
    if schema.directive_index(element_name(join.spec_name, element)).is_some() {
        Ok(element_name(join.spec_name, element))
    } else {
        Err(internal(msg_no_definition(element)))
    }
}

/// The name in `schema` of a join directive that came with version
/// `0.since` of the specification: nothing under an earlier version, and a
/// name that the schema must define from that version on.
pub open spec fn versioned_directive(
    schema: SchemaView,
    join: JoinSpecView,
    element: Seq<char>,
    since: u32,
) -> Result<Option<Seq<char>>, ErrorView> {
    if join.version.major == 0 && join.version.minor < since {
        Ok(None)
    } else {
        match required_directive(schema, join, element) {
            Ok(name) => Ok(Some(name)),
            Err(e) => Err(e),
        }
    }
}

/// Assumes that `schema` is a valid schema; draws from it the specifications
/// by which it is read as a supergraph.
pub fn validate_supergraph(schema: &Schema) -> (r: Result<Specs, FederationError>)
    ensures
        yields(r, resolve_specs(schema@)),
{
    let link = match schema.find_link("link") {
        Some(l) => Some(l),
        None => schema.find_link("core"),
    };
    let link = match link {
        None => {
            return Err(
                FederationError::invalid_supergraph(
                    String::from_str("Invalid supergraph: must be a core schema"),
                ),
            );
        },
        Some(l) => l,
    };
    let join = match schema.find_link("join") {
        None => {
            return Err(
                FederationError::invalid_supergraph(
                    String::from_str("Invalid supergraph: must use the join spec"),
                ),
            );
        },
        Some(j) => j,
    };
    let v = join.url.version;
    if v.major == 0 && 1 <= v.minor && v.minor <= 3 {
        Ok(Specs { link_name: link.spec_name, join: JoinSpec { version: v, spec_name: join.spec_name } })
    } else {
        let major = u32_text(v.major);
        let minor = u32_text(v.minor);
        let message = concat5(
            "Invalid supergraph: uses unsupported join spec version ",
            major.as_str(),
            ".",
            minor.as_str(),
            " (supported versions: 0.1, 0.2, 0.3)",
        );
        assert(message@ =~= msg_unsupported_join(v));
        Err(FederationError::invalid_supergraph(message))
    }
}

impl Specs {
    /// Whether the type `name` belongs to the linking or to the join
    /// specification.
    pub fn is_spec_type(&self, name: &str) -> (r: bool)
        ensures
            r == is_spec_type(self.deep_view(), name@),
    {
        let link_prefix = concat2(self.link_name.as_str(), "__");
        let join_prefix = concat2(self.join.spec_name.as_str(), "__");
        starts_with(name, link_prefix.as_str()) || starts_with(name, join_prefix.as_str())
    }
}

impl JoinSpec {
    /// The name in `schema` of the join directive `element`, which the schema
    /// must define.
    pub fn required_directive(&self, schema: &Schema, element: &str) -> (r: Result<
        String,
        FederationError,
    >)
        ensures
            yields(r, required_directive(schema@, self@, element@)),
    {
        let name = element_name_of(self.spec_name.as_str(), element);
        if schema.find_directive_definition(name.as_str()).is_some() {
            Ok(name)
        } else {
            Err(
                FederationError::internal(
                    concat3(
                        "Unexpectedly could not find join spec's \"",
                        element,
                        "\" directive in schema",
                    ),
                ),
            )
        }
    }

    /// The name in `schema` of a join directive that came with version
    /// `0.since` of the specification.
    pub fn versioned_directive(&self, schema: &Schema, element: &str, since: u32) -> (r: Result<
        Option<String>,
        FederationError,
    >)
        ensures
            yields(r, versioned_directive(schema@, self@, element@, since)),
    {
        if self.version.major == 0 && self.version.minor < since {
            Ok(None)
        } else {
            let name = self.required_directive(schema, element)?;
            Ok(Some(name))
        }
    }
}

} // verus!
