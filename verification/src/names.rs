//! GraphQL names: what the provenance applications write as text where a
//! schema wants a name.
use crate::error::{ErrorView, FederationError};
use crate::join::yields;
use crate::text::{chars_of, concat3};
use vstd::prelude::*;
use vstd::string::*;

verus! {

/// Whether a name can start with the character: a letter of the English
/// alphabet or an underscore.
pub open spec fn is_name_start(c: char) -> bool {
    c == '_' || ('a' <= c && c <= 'z') || ('A' <= c && c <= 'Z')
}

/// Whether a name can go on with the character: a letter, an underscore or a
/// decimal digit.
pub open spec fn is_name_continue(c: char) -> bool {
    is_name_start(c) || ('0' <= c && c <= '9')
}

/// Whether the text is a GraphQL name: a letter or an underscore, then
/// letters, underscores and digits.
pub open spec fn is_graphql_name(s: Seq<char>) -> bool {
    &&& s.len() > 0
    &&& is_name_start(s[0])
    &&& forall|i: int| 1 <= i < s.len() ==> is_name_continue(#[trigger] s[i])
}

/// Whether the text is a GraphQL name.
pub fn has_name_syntax(text: &str) -> (r: bool)
    ensures
        r == is_graphql_name(text@),
{
    let chars = chars_of(text);
    if chars.len() == 0 {
        return false;
    }
    let first = chars[0];
    if !(first == '_' || (first >= 'a' && first <= 'z') || (first >= 'A' && first <= 'Z')) {
        return false;
    }
    let mut i: usize = 1;
    while i < chars.len()
        invariant
            1 <= i <= chars.len(),
            chars@ == text@,
            forall|j: int| 1 <= j < i ==> is_name_continue(#[trigger] chars@[j]),
        decreases chars.len() - i,
    {
        let c = chars[i];
        if !(c == '_' || (c >= 'a' && c <= 'z') || (c >= 'A' && c <= 'Z') || (c >= '0' && c
            <= '9')) {
            return false;
        }
        i += 1;
    }
    true
}

/// What is said of a text that is no name.
pub open spec fn msg_invalid_name(text: Seq<char>) -> Seq<char> {
    "Invalid GraphQL name \""@ + text + "\""@
}

/// The text as a name, or the error that says that it is none.
pub open spec fn graphql_name_spec(text: Seq<char>) -> Result<Seq<char>, ErrorView> {
    if is_graphql_name(text) {
        Ok(text)
    } else {
        Err(ErrorView::InvalidGraphQL { message: msg_invalid_name(text) })
    }
}

/// The text as a name, or the error that says that it is none.
pub fn graphql_name(text: &str) -> (r: Result<String, FederationError>)
    ensures
        yields(r, graphql_name_spec(text@)),
{
    if has_name_syntax(text) {
        Ok(String::from_str(text))
    } else {
        Err(FederationError::InvalidGraphQL { message: concat3("Invalid GraphQL name \"", text, "\"") })
    }
}

} // verus!
