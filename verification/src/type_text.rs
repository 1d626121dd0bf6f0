//! Type expressions written as text, as the type override of a field-level
//! provenance application carries them. The text is put in the position of a
//! field's type in a document of one object, and the document is read by the
//! GraphQL parser of `apollo_compiler`.
use crate::error::{ErrorView, FederationError};
use crate::join::yields;
use crate::schema::{TypeRef, TypeRefView};
use crate::text::{concat3, contains_char};
use apollo_compiler::Schema;
use vstd::prelude::*;
use vstd::string::*;

verus! {

/// The document in which a type expression is read: an object `Query` with
/// one field `field`, of the type that the text writes.
pub open spec fn field_document(text: Seq<char>) -> Seq<char> {
    "type Query { field: "@ + text + " }"@
}

/// The type that the field `field` of the object `Query` has in the schema
/// that `apollo_compiler` builds from the document: its name, whether it is
/// non-null, and its list layers, outermost first; nothing where the schema
/// has no such field.
pub uninterp spec fn parsed_field_type(document: Seq<char>) -> Option<(Seq<char>, bool, Seq<bool>)>;

/// `apollo_compiler::Schema::parse` on the document, then the type of the
/// field `field` of the object `Query` in what was built, errors or not, taken
/// apart layer by layer with `Type::is_list`, `Type::is_non_null`,
/// `Type::item_type` and `Type::inner_named_type`. The contract only gives
/// what comes back its name.
#[verifier::external_body]
fn parse_field_type(document: &str) -> (r: Option<TypeRef>)
    ensures
        match r {
            Some(t) => parsed_field_type(document@) == Some((t.name@, t.non_null, t.lists@)),
            None => parsed_field_type(document@).is_none(),
        },
{
    let schema = Schema::parse(document, "temp.graphql").unwrap_or_else(|e| e.partial);
    let mut ty = &schema.get_object("Query")?.fields.get("field")?.ty;
    let mut lists = Vec::new();
    while ty.is_list() {
        lists.push(ty.is_non_null());
        ty = ty.item_type();
    }
    Some(TypeRef { name: ty.inner_named_type().to_string(), non_null: ty.is_non_null(), lists })
}

/// What is said of a text that is no type expression.
pub open spec fn msg_cannot_parse(text: Seq<char>) -> Seq<char> {
    "Cannot parse type \""@ + text + "\""@
}

/// The error for a text that is no type expression.
pub open spec fn cannot_parse(text: Seq<char>) -> ErrorView {
    ErrorView::InvalidGraphQL { message: msg_cannot_parse(text) }
}

/// The type expression that `text` writes, given what the parser made of it.
/// A text that holds a closing brace or a colon is refused whatever the
/// parser made of it: it would end the field or the type in which the parser
/// reads it.
pub open spec fn decode_type_from_spec(
    text: Seq<char>,
    parsed: Option<(Seq<char>, bool, Seq<bool>)>,
) -> Result<TypeRefView, ErrorView> {
    if text.contains('}') || text.contains(':') {
        Err(cannot_parse(text))
    } else {
        match parsed {
            Some((name, non_null, lists)) => Ok(TypeRefView { name, non_null, lists }),
            None => Err(cannot_parse(text)),
        }
    }
}

/// The type expression that `text` writes: what the parser makes of the
/// document that holds the text as the type of a field.
pub open spec fn decode_type_spec(text: Seq<char>) -> Result<TypeRefView, ErrorView> {
    decode_type_from_spec(text, parsed_field_type(field_document(text)))
}

/// The error for a text that is no type expression.
fn cannot_parse_error(text: &str) -> (r: FederationError)
    ensures
        r@ == cannot_parse(text@),
{
    FederationError::InvalidGraphQL { message: concat3("Cannot parse type \"", text, "\"") }
}

/// The type expression that `text` writes, given what the parser made of it.
pub fn decode_type_from(text: &str, parsed: Option<TypeRef>) -> (r: Result<TypeRef, FederationError>)
    ensures
        yields(
            r,
            decode_type_from_spec(
                text@,
                match parsed {
                    Some(t) => Some((t.name@, t.non_null, t.lists@)),
                    None => None,
                },
            ),
        ),
{
    if contains_char(text, '}') || contains_char(text, ':') {
        return Err(cannot_parse_error(text));
    }
    match parsed {
        Some(t) => Ok(t),
        None => Err(cannot_parse_error(text)),
    }
}

/// Reads a type expression such as `[Foo!]!`.
pub fn decode_type(text: &str) -> (r: Result<TypeRef, FederationError>)
    ensures
        yields(r, decode_type_spec(text@)),
{
    if contains_char(text, '}') || contains_char(text, ':') {
        return Err(cannot_parse_error(text));
    }
    let document = concat3("type Query { field: ", text, " }");
    let parsed = parse_field_type(document.as_str());
    decode_type_from(text, parsed)
}

} // verus!
