//! Validation of an extracted schema, by the validator of `apollo_compiler`
//! on the schema's document.
use crate::error::{invalid_supergraph, ErrorView, FederationError};
use crate::text::concat3;
use apollo_compiler::Schema;
use vstd::prelude::*;
use vstd::string::*;

verus! {

/// What `apollo_compiler` reports of the GraphQL document `sdl` when it
/// builds a schema from it and validates the schema: nothing where the schema
/// is valid, and the text of its diagnostics otherwise.
pub uninterp spec fn validation_diagnostics(sdl: Seq<char>) -> Option<Seq<char>>;

/// `apollo_compiler::Schema::parse_and_validate` on the document, under the
/// file name `subgraph.graphql`; where it fails, the diagnostics as their
/// `Display` writes them, without colours. The contract only gives what comes
/// back its name.
#[verifier::external_body]
fn validate_document(sdl: &str) -> (r: Option<String>)
    ensures
        r.deep_view() == validation_diagnostics(sdl@),
{
    match Schema::parse_and_validate(sdl, "subgraph.graphql") {
        Ok(_) => None,
        Err(e) => Some(e.errors.to_string()),
    }
}

/// What is said of a service whose schema validation rejects, with the
/// diagnostics.
pub open spec fn msg_validation(name: Seq<char>, details: Seq<char>) -> Seq<char> {
    "Unexpected error extracting "@ + name
        + " from the supergraph: this is either a bug, or the supergraph has been corrupted.\n\nDetails:\n"@
        + details
}

/// The verdict on the schema of the service `name`, given what validation
/// reported of it: a report is an error that names the service and holds the
/// report.
pub open spec fn verdict(name: Seq<char>, diagnostics: Option<Seq<char>>) -> Result<(), ErrorView> {
    match diagnostics {
        None => Ok(()),
        Some(details) => Err(invalid_supergraph(msg_validation(name, details))),
    }
}

/// The verdict on the schema of the service `name`, given what validation
/// reported of it.
pub fn check_diagnostics(name: &str, diagnostics: Option<String>) -> (r: Result<
    (),
    FederationError,
>)
    ensures
        match verdict(name@, diagnostics.deep_view()) {
            Ok(_) => r is Ok,
            Err(e) => r is Err && r->Err_0@ == e,
        },
{
    match diagnostics {
        None => Ok(()),
        Some(details) => Err(
            FederationError::invalid_supergraph(
                concat3(
                    "Unexpected error extracting ",
                    name,
                    " from the supergraph: this is either a bug, or the supergraph has been corrupted.\n\nDetails:\n",
                ).concat(details.as_str()),
            ),
        ),
    }
}

/// Validates the document `sdl` of the service `name`.
pub fn validate_subgraph(name: &str, sdl: &str) -> (r: Result<(), FederationError>)
    ensures
        match verdict(name@, validation_diagnostics(sdl@)) {
            Ok(_) => r is Ok,
            Err(e) => r is Err && r->Err_0@ == e,
        },
{
    check_diagnostics(name, validate_document(sdl))
}

} // verus!
