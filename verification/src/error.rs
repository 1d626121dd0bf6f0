//! The errors of subgraph extraction.
use vstd::prelude::*;

verus! {

/// Why an extraction was abandoned.
#[derive(Debug, PartialEq, Eq)]
pub enum FederationError {
    /// The supergraph is not a consistent, provenance-annotated supergraph, or
    /// a schema drawn from it failed validation.
    InvalidFederationSupergraph { message: String },
    /// A condition that earlier stages should have made impossible.
    Internal { message: String },
    /// A piece of GraphQL text could not be read.
    InvalidGraphQL { message: String },
    /// The supergraph uses a generation of the join specification whose
    /// extraction is deferred.
    UnsupportedFederationVersion { message: String },
}

/// The mathematical value of a `FederationError`.
pub enum ErrorView {
    InvalidFederationSupergraph { message: Seq<char> },
    Internal { message: Seq<char> },
    InvalidGraphQL { message: Seq<char> },
    UnsupportedFederationVersion { message: Seq<char> },
}

impl View for FederationError {
    type V = ErrorView;

    open spec fn view(&self) -> ErrorView {
        match self {
            FederationError::InvalidFederationSupergraph { message } => {
                ErrorView::InvalidFederationSupergraph { message: message@ }
            },
            FederationError::Internal { message } => ErrorView::Internal { message: message@ },
            FederationError::InvalidGraphQL { message } => ErrorView::InvalidGraphQL {
                message: message@,
            },
            FederationError::UnsupportedFederationVersion { message } => {
                ErrorView::UnsupportedFederationVersion { message: message@ }
            },
        }
    }
}

impl ErrorView {
    /// The text carried by the error.
    pub open spec fn message(self) -> Seq<char> {
        match self {
            ErrorView::InvalidFederationSupergraph { message } => message,
            ErrorView::Internal { message } => message,
            ErrorView::InvalidGraphQL { message } => message,
            ErrorView::UnsupportedFederationVersion { message } => message,
        }
    }
}

/// A malformed-supergraph error with the given text.
pub open spec fn invalid_supergraph(message: Seq<char>) -> ErrorView {
    ErrorView::InvalidFederationSupergraph { message }
}

/// An internal-invariant error with the given text.
pub open spec fn internal(message: Seq<char>) -> ErrorView {
    ErrorView::Internal { message }
}

impl FederationError {
    /// The text carried by the error.
    pub fn message(&self) -> (r: String)
        ensures
            r@ == self@.message(),
    {
        match self {
            FederationError::InvalidFederationSupergraph { message } => message.clone(),
            FederationError::Internal { message } => message.clone(),
            FederationError::InvalidGraphQL { message } => message.clone(),
            FederationError::UnsupportedFederationVersion { message } => message.clone(),
        }
    }

    /// A malformed-supergraph error with the given text.
    pub fn invalid_supergraph(message: String) -> (r: FederationError)
        ensures
            r@ == invalid_supergraph(message@),
    {
        FederationError::InvalidFederationSupergraph { message }
    }

    /// An internal-invariant error with the given text.
    pub fn internal(message: String) -> (r: FederationError)
        ensures
            r@ == internal(message@),
    {
        FederationError::Internal { message }
    }
}

} // verus!
