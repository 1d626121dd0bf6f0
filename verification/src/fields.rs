//! The field that a service gets from a supergraph field: its type, its
//! arguments and the federation directives that the provenance application
//! calls for.
use crate::edits::outcome;
use crate::error::{ErrorView, FederationError};
use crate::federation::{
    external_directive, make_external_directive, make_override_directive,
    make_provides_directive, make_requires_directive, make_shareable_directive,
    override_directive, provides_directive, requires_directive, shareable_directive,
};
use crate::kinds::same_kinds;
use crate::members::{new_members_of, placed};
use crate::join::{or_default, yields, FieldArguments, FieldArgumentsView};
use crate::schema::{
    Directive, DirectiveView, Field, FieldView, InputValue, InputValueView, Schema, SchemaView,
    TypeKind, TypeRef, TypeRefView,
};
use crate::seqs::{lemma_deep_view_empty, lemma_deep_view_push};
use crate::type_text::{decode_type, decode_type_spec};
use vstd::prelude::*;
use vstd::string::*;

verus! {

/// The directive, where the condition holds.
pub open spec fn when(condition: bool, d: DirectiveView) -> Seq<DirectiveView> {
    if condition {
        seq![d]
    } else {
        Seq::empty()
    }
}

/// The directive made from the text, where there is a text.
pub open spec fn with_text(
    text: Option<Seq<char>>,
    make: spec_fn(Seq<char>) -> DirectiveView,
) -> Seq<DirectiveView> {
    match text {
        Some(t) => seq![make(t)],
        None => Seq::empty(),
    }
}

/// The text that marks a field as external because another service took its
/// resolution over.
pub open spec fn overridden_reason() -> Seq<char> {
    "[overridden]"@
}

/// The federation directives of a field drawn from the application `app`:
/// `@requires` and `@provides` where it has them, `@external` where it is
/// external, `@external` with the reason `[overridden]` where it was
/// overridden, `@override` where it has one, and `@shareable` where the field
/// is shareable and neither external nor overridden.
pub open spec fn field_directives(app: FieldArgumentsView, is_shareable: bool) -> Seq<
    DirectiveView,
> {
    let external = or_default(app.external, false);
    let overridden = or_default(app.user_overridden, false);
    with_text(app.required, |t: Seq<char>| requires_directive(t)) + with_text(
        app.provides,
        |t: Seq<char>| provides_directive(t),
    ) + when(external, external_directive(None)) + when(
        overridden,
        external_directive(Some(overridden_reason())),
    ) + with_text(app.override_, |t: Seq<char>| override_directive(t)) + when(
        is_shareable && !external && !overridden,
        shareable_directive(),
    )
}

/// The type of a member drawn from the application `app`: the type that the
/// application writes, where it writes one, and the supergraph's otherwise.
pub open spec fn member_type(ty: TypeRefView, app: FieldArgumentsView) -> Result<
    TypeRefView,
    ErrorView,
> {
    match app.type_ {
        Some(text) => decode_type_spec(text),
        None => Ok(ty),
    }
}

/// The field that a service gets from the supergraph field `field` under the
/// application `app`: the same name, the arguments without their directives,
/// the type of `member_type` and the directives of `field_directives`.
pub open spec fn subgraph_field(field: FieldView, app: FieldArgumentsView, is_shareable: bool) -> Result<
    FieldView,
    ErrorView,
> {
    match member_type(field.ty, app) {
        Err(e) => Err(e),
        Ok(ty) => Ok(
            FieldView {
                name: field.name,
                arguments: field.arguments.map_values(bare_input()),
                ty,
                directives: field_directives(app, is_shareable),
            },
        ),
    }
}

/// The input field that a service gets from the supergraph input field
/// `field` under the application `app`: the same name and default value, the
/// type of `member_type`, and no directive.
pub open spec fn subgraph_input_field(field: InputValueView, app: FieldArgumentsView) -> Result<
    InputValueView,
    ErrorView,
> {
    match member_type(field.ty, app) {
        Err(e) => Err(e),
        Ok(ty) => Ok(
            InputValueView {
                name: field.name,
                ty,
                default_value: field.default_value,
                directives: Seq::empty(),
            },
        ),
    }
}

impl SchemaView {
    /// The schema with the field of `subgraph_field` added to the type
    /// `owner`, which must be of kind `kind`.
    pub open spec fn add_subgraph_field(
        self,
        owner: Seq<char>,
        kind: TypeKind,
        field: FieldView,
        is_shareable: bool,
        app: FieldArgumentsView,
    ) -> Result<SchemaView, ErrorView> {
        match subgraph_field(field, app, is_shareable) {
            Err(e) => Err(e),
            Ok(f) => self.insert_field(owner, kind, f),
        }
    }

    /// The schema with the input field of `subgraph_input_field` added to the
    /// input object `owner`.
    pub open spec fn add_subgraph_input_field(
        self,
        owner: Seq<char>,
        field: InputValueView,
        app: FieldArgumentsView,
    ) -> Result<SchemaView, ErrorView> {
        match subgraph_input_field(field, app) {
            Err(e) => Err(e),
            Ok(f) => self.insert_input_field(owner, f),
        }
    }
}

/// The type of a member drawn from the application `app`.
fn read_member_type(ty: &TypeRef, app: &FieldArguments) -> (r: Result<TypeRef, FederationError>)
    ensures
        yields(r, member_type(ty@, app.deep_view())),
{
    match &app.type_ {
        Some(text) => decode_type(text.as_str()),
        None => Ok(ty.clone()),
    }
}

/// The input value without its directives.
pub open spec fn bare_input() -> spec_fn(InputValueView) -> InputValueView {
    |a: InputValueView| a.bare()
}

/// The input values without their directives.
pub fn bare_inputs(arguments: &Vec<InputValue>) -> (r: Vec<InputValue>)
    ensures
        r.deep_view() == arguments.deep_view().map_values(bare_input()),
{
    let mut r: Vec<InputValue> = Vec::new();
    let mut i: usize = 0;
    while i < arguments.len()
        invariant
            i <= arguments.len(),
            r.len() == i,
            forall|j: int|
                0 <= j < i ==> (#[trigger] r.deep_view()[j]) == arguments.deep_view()[j].bare(),
        decreases arguments.len() - i,
    {
        let ghost before = r;
        let a = arguments[i].bare();
        r.push(a);
        proof {
            lemma_deep_view_push(before, r, a);
        }
        i += 1;
    }
    assert(r.deep_view() =~= arguments.deep_view().map_values(bare_input()));
    r
}

/// The federation directives of a field drawn from the application `app`.
fn make_field_directives(app: &FieldArguments, is_shareable: bool) -> (r: Vec<Directive>)
    ensures
        r.deep_view() == field_directives(app.deep_view(), is_shareable),
{
    let ghost v = app.deep_view();
    let ghost external_v = or_default(v.external, false);
    let ghost overridden_v = or_default(v.user_overridden, false);
    let ghost s1 = with_text(v.required, |t: Seq<char>| requires_directive(t));
    let ghost s2 = s1 + with_text(v.provides, |t: Seq<char>| provides_directive(t));
    let ghost s3 = s2 + when(external_v, external_directive(None));
    let ghost s4 = s3 + when(overridden_v, external_directive(Some(overridden_reason())));
    let ghost s5 = s4 + with_text(v.override_, |t: Seq<char>| override_directive(t));
    let ghost s6 = s5 + when(is_shareable && !external_v && !overridden_v, shareable_directive());
    let mut r: Vec<Directive> = Vec::new();
    proof {
        lemma_deep_view_empty(r);
    }
    if let Some(fields) = &app.required {
        let ghost before = r;
        let d = make_requires_directive(fields.as_str());
        r.push(d);
        proof {
            lemma_deep_view_push(before, r, d);
        }
    }
    assert(r.deep_view() =~= s1);
    if let Some(fields) = &app.provides {
        let ghost before = r;
        let d = make_provides_directive(fields.as_str());
        r.push(d);
        proof {
            lemma_deep_view_push(before, r, d);
        }
    }
    assert(r.deep_view() =~= s2);
    let external = match app.external {
        Some(b) => b,
        None => false,
    };
    if external {
        let ghost before = r;
        let d = make_external_directive(None);
        r.push(d);
        proof {
            lemma_deep_view_push(before, r, d);
        }
    }
    assert(r.deep_view() =~= s3);
    let overridden = match app.user_overridden {
        Some(b) => b,
        None => false,
    };
    if overridden {
        let ghost before = r;
        let d = make_external_directive(Some("[overridden]"));
        r.push(d);
        proof {
            lemma_deep_view_push(before, r, d);
        }
    }
    assert(r.deep_view() =~= s4);
    if let Some(from) = &app.override_ {
        let ghost before = r;
        let d = make_override_directive(from.as_str());
        r.push(d);
        proof {
            lemma_deep_view_push(before, r, d);
        }
    }
    assert(r.deep_view() =~= s5);
    if is_shareable && !external && !overridden {
        let ghost before = r;
        let d = make_shareable_directive();
        r.push(d);
        proof {
            lemma_deep_view_push(before, r, d);
        }
    }
    assert(r.deep_view() =~= s6);
    r
}

/// The field that a service gets from the supergraph field `field` under the
/// application `app`.
pub fn make_subgraph_field(field: &Field, app: &FieldArguments, is_shareable: bool) -> (r: Result<
    Field,
    FederationError,
>)
    ensures
        yields(r, subgraph_field(field@, app.deep_view(), is_shareable)),
{
    let ty = read_member_type(&field.ty, app)?;
    Ok(
        Field {
            name: field.name.clone(),
            arguments: bare_inputs(&field.arguments),
            ty,
            directives: make_field_directives(app, is_shareable),
        },
    )
}

/// Adds to the type `owner` of a service's schema the field that the service
/// gets from the supergraph field `field` under the application `app`.
pub fn add_subgraph_field(
    schema: &mut Schema,
    owner: &str,
    kind: TypeKind,
    field: &Field,
    is_shareable: bool,
    app: &FieldArguments,
) -> (r: Result<(), FederationError>)
    ensures
        outcome(
            r,
            final(schema)@,
            old(schema)@.add_subgraph_field(owner@, kind, field@, is_shareable, app.deep_view()),
        ),
        r is Err ==> final(schema)@ == old(schema)@,
        same_kinds(old(schema)@, final(schema)@),
        new_members_of(old(schema)@, final(schema)@, owner@),
        r is Ok ==> placed(old(schema)@, final(schema)@, owner@, field@.name),
        old(schema)@.closed() && r is Ok ==> final(schema)@.closed(),
{
    let f = make_subgraph_field(field, app, is_shareable)?;
    schema.insert_field(owner, kind, f)
}

/// Adds to the input object `owner` of a service's schema the input field that
/// the service gets from the supergraph input field `field` under the
/// application `app`.
pub fn add_subgraph_input_field(
    schema: &mut Schema,
    owner: &str,
    field: &InputValue,
    app: &FieldArguments,
) -> (r: Result<(), FederationError>)
    ensures
        outcome(
            r,
            final(schema)@,
            old(schema)@.add_subgraph_input_field(owner@, field@, app.deep_view()),
        ),
        r is Err ==> final(schema)@ == old(schema)@,
        same_kinds(old(schema)@, final(schema)@),
        new_members_of(old(schema)@, final(schema)@, owner@),
        r is Ok ==> placed(old(schema)@, final(schema)@, owner@, field@.name),
        old(schema)@.closed() && r is Ok ==> final(schema)@.closed(),
{
    let ty = read_member_type(&field.ty, app)?;
    let default_value = match &field.default_value {
        Some(v) => Some(v.clone()),
        None => None,
    };
    let f = InputValue { name: field.name.clone(), ty, default_value, directives: Vec::new() };
    proof {
        lemma_deep_view_empty(f.directives);
    }
    schema.insert_input_field(owner, f)
}

} // verus!
