//! Extraction of the schemas of the services that were composed into a
//! federation supergraph.
//!
//! A supergraph is one schema that records, in provenance directives, which
//! service contributed each type and each member. [`extract`] draws from it
//! the schema of each service: [`supergraph`] checks what the supergraph
//! declares, [`scaffold`] seeds the registry of [`subgraphs`] and gives each
//! service the empty shells of the types that it owns, [`objects`],
//! [`interfaces`], [`unions`], [`enums`] and [`inputs`] populate the shells,
//! [`prune`] removes the shells that stayed empty, [`operations`] adds the
//! federation operations, and [`validation`] validates what came out.
//!
//! Schemas are plain data ([`schema`], [`builders`]), edited under guards
//! ([`edits`]) and written out as documents ([`sdl`]). What extraction
//! guarantees of its result is stated in [`closure`], [`members`],
//! [`ownership`], [`lineage`] and [`surface`]; what a stage of population may
//! add to the services, what it owes them and what it leaves as it is, in
//! [`growth`], [`placement`] and [`kinds`].
pub mod builders;
pub mod closure;
pub mod connectors;
pub mod edits;
pub mod enums;
pub mod error;
pub mod extract;
pub mod federation;
pub mod fields;
pub mod growth;
pub mod inputs;
pub mod interfaces;
pub mod join;
pub mod kinds;
pub mod lineage;
pub mod links;
pub mod members;
pub mod names;
pub mod objects;
pub mod operations;
pub mod ordered;
pub mod ownership;
pub mod placement;
pub mod provenance;
pub mod prune;
pub mod scaffold;
pub mod schema;
pub mod sdl;
pub mod seqs;
pub mod subgraphs;
pub mod supergraph;
pub mod surface;
pub mod text;
pub mod type_text;
pub mod unions;
pub mod validation;
