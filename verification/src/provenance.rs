//! The provenance applications attached to one element of a supergraph: those
//! of one directive, read in order, the first unreadable one being the error.
use crate::error::{ErrorView, FederationError};
use crate::join::{
    field_arguments, read_field_arguments, read_required_enum, read_target_arguments,
    read_type_arguments, required_enum, target_arguments, type_arguments, yields, FieldArguments,
    FieldArgumentsView, TargetArguments, TargetArgumentsView, TypeArguments, TypeArgumentsView,
};
use crate::schema::{Directive, DirectiveView};
use crate::seqs::{
    first_where, lemma_deep_view_empty, lemma_deep_view_push, lemma_first_where_is,
    lemma_first_where_none, try_fold,
};
use crate::text::str_eq;
use vstd::prelude::*;

verus! {

/// One step of reading the applications of the directive `name`: an
/// application of another directive is passed over, one of `name` is read and
/// added.
pub open spec fn decode_step<A>(
    name: Seq<char>,
    decoder: spec_fn(DirectiveView) -> Result<A, ErrorView>,
) -> spec_fn(Seq<A>, DirectiveView) -> Result<Seq<A>, ErrorView> {
    |acc: Seq<A>, d: DirectiveView|
        if d.name == name {
            match decoder(d) {
                Ok(a) => Ok(acc.push(a)),
                Err(e) => Err(e),
            }
        } else {
            Ok(acc)
        }
}

/// The applications of the directive `name` among `directives`, each read by
/// `decoder`.
pub open spec fn applications<A>(
    directives: Seq<DirectiveView>,
    name: Seq<char>,
    decoder: spec_fn(DirectiveView) -> Result<A, ErrorView>,
) -> Result<Seq<A>, ErrorView> {
    try_fold(directives, 0, Seq::<A>::empty(), decode_step(name, decoder))
}

/// The applications of a directive that the supergraph may lack: none where
/// it does.
pub open spec fn optional_applications<A>(
    directives: Seq<DirectiveView>,
    name: Option<Seq<char>>,
    decoder: spec_fn(DirectiveView) -> Result<A, ErrorView>,
) -> Result<Seq<A>, ErrorView> {
    match name {
        Some(n) => applications(directives, n, decoder),
        None => Ok(Seq::empty()),
    }
}

/// The reading of a type-level application.
pub open spec fn type_decoder() -> spec_fn(DirectiveView) -> Result<TypeArgumentsView, ErrorView> {
    |d: DirectiveView| type_arguments(d)
}

/// The reading of a field-level application.
pub open spec fn field_decoder() -> spec_fn(DirectiveView) -> Result<
    FieldArgumentsView,
    ErrorView,
> {
    |d: DirectiveView| field_arguments(d)
}

/// The reading of an application that names a service and, under `target`,
/// one other type.
pub open spec fn target_decoder(target: Seq<char>) -> spec_fn(DirectiveView) -> Result<
    TargetArgumentsView,
    ErrorView,
> {
    |d: DirectiveView| target_arguments(d, target)
}

/// The reading of an application that names a service and nothing else.
pub open spec fn graph_decoder() -> spec_fn(DirectiveView) -> Result<Seq<char>, ErrorView> {
    |d: DirectiveView| required_enum(d, "graph"@)
}

/// The type-level applications among `directives`.
pub fn type_applications(directives: &Vec<Directive>, name: &str) -> (r: Result<
    Vec<TypeArguments>,
    FederationError,
>)
    ensures
        yields(r, applications(directives.deep_view(), name@, type_decoder())),
{
    let ghost step = decode_step(name@, type_decoder());
    let ghost all = directives.deep_view();
    let mut found: Vec<TypeArguments> = Vec::new();
    proof {
        lemma_deep_view_empty(found);
    }
    let mut i: usize = 0;
    while i < directives.len()
        invariant
            i <= directives.len(),
            all == directives.deep_view(),
            step == decode_step(name@, type_decoder()),
            try_fold(all, i as int, found.deep_view(), step) == try_fold(
                all,
                0,
                Seq::<TypeArgumentsView>::empty(),
                step,
            ),
        decreases directives.len() - i,
    {
        if str_eq(directives[i].name.as_str(), name) {
            let a = read_type_arguments(&directives[i])?;
            let ghost before = found;
            found.push(a);
            proof {
                lemma_deep_view_push(before, found, a);
            }
        }
        i += 1;
    }
    Ok(found)
}

/// The field-level applications among `directives`.
pub fn field_applications(directives: &Vec<Directive>, name: &str) -> (r: Result<
    Vec<FieldArguments>,
    FederationError,
>)
    ensures
        yields(r, applications(directives.deep_view(), name@, field_decoder())),
{
    let ghost step = decode_step(name@, field_decoder());
    let ghost all = directives.deep_view();
    let mut found: Vec<FieldArguments> = Vec::new();
    proof {
        lemma_deep_view_empty(found);
    }
    let mut i: usize = 0;
    while i < directives.len()
        invariant
            i <= directives.len(),
            all == directives.deep_view(),
            step == decode_step(name@, field_decoder()),
            try_fold(all, i as int, found.deep_view(), step) == try_fold(
                all,
                0,
                Seq::<FieldArgumentsView>::empty(),
                step,
            ),
        decreases directives.len() - i,
    {
        if str_eq(directives[i].name.as_str(), name) {
            let a = read_field_arguments(&directives[i])?;
            let ghost before = found;
            found.push(a);
            proof {
                lemma_deep_view_push(before, found, a);
            }
        }
        i += 1;
    }
    Ok(found)
}

/// The applications among `directives` of a directive that names a service
/// and, under `target`, one other type; none where the supergraph lacks the
/// directive.
pub fn target_applications(directives: &Vec<Directive>, name: &Option<String>, target: &str) -> (r:
    Result<Vec<TargetArguments>, FederationError>)
    ensures
        yields(
            r,
            optional_applications(directives.deep_view(), name.deep_view(), target_decoder(target@)),
        ),
{
    let mut found: Vec<TargetArguments> = Vec::new();
    proof {
        lemma_deep_view_empty(found);
    }
    let known = match name {
        Some(n) => n,
        None => {
            return Ok(found);
        },
    };
    let ghost step = decode_step(known@, target_decoder(target@));
    let ghost all = directives.deep_view();
    let mut i: usize = 0;
    while i < directives.len()
        invariant
            i <= directives.len(),
            all == directives.deep_view(),
            name.deep_view() == Some(known@),
            step == decode_step(known@, target_decoder(target@)),
            try_fold(all, i as int, found.deep_view(), step) == try_fold(
                all,
                0,
                Seq::<TargetArgumentsView>::empty(),
                step,
            ),
        decreases directives.len() - i,
    {
        if str_eq(directives[i].name.as_str(), known.as_str()) {
            let a = read_target_arguments(&directives[i], target)?;
            let ghost before = found;
            found.push(a);
            proof {
                lemma_deep_view_push(before, found, a);
            }
        }
        i += 1;
    }
    Ok(found)
}

/// The services named by the applications among `directives` of a directive
/// that names a service and nothing else; none where the supergraph lacks the
/// directive.
pub fn graph_applications(directives: &Vec<Directive>, name: &Option<String>) -> (r: Result<
    Vec<String>,
    FederationError,
>)
    ensures
        yields(r, optional_applications(directives.deep_view(), name.deep_view(), graph_decoder())),
{
    let mut found: Vec<String> = Vec::new();
    proof {
        lemma_deep_view_empty(found);
    }
    let known = match name {
        Some(n) => n,
        None => {
            return Ok(found);
        },
    };
    let ghost step = decode_step(known@, graph_decoder());
    let ghost all = directives.deep_view();
    let mut i: usize = 0;
    while i < directives.len()
        invariant
            i <= directives.len(),
            all == directives.deep_view(),
            name.deep_view() == Some(known@),
            step == decode_step(known@, graph_decoder()),
            try_fold(all, i as int, found.deep_view(), step) == try_fold(
                all,
                0,
                Seq::<Seq<char>>::empty(),
                step,
            ),
        decreases directives.len() - i,
    {
        if str_eq(directives[i].name.as_str(), known.as_str()) {
            let a = read_required_enum(&directives[i], "graph")?;
            let ghost before = found;
            found.push(a);
            proof {
                lemma_deep_view_push(before, found, a);
            }
        }
        i += 1;
    }
    Ok(found)
}

/// The applications of the directive `name`.
pub open spec fn applies(name: Seq<char>) -> spec_fn(DirectiveView) -> bool {
    |d: DirectiveView| d.name == name
}

/// The position of the first application of the directive `name`.
pub fn first_application(directives: &Vec<Directive>, name: &str) -> (r: Option<usize>)
    ensures
        match r {
            Some(i) => first_where(directives.deep_view(), applies(name@)) == Some(i as int) && i
                < directives.len(),
            None => first_where(directives.deep_view(), applies(name@)).is_none(),
        },
{
    let mut i: usize = 0;
    while i < directives.len()
        invariant
            i <= directives.len(),
            forall|j: int| 0 <= j < i ==> !applies(name@)(#[trigger] directives.deep_view()[j]),
        decreases directives.len() - i,
    {
        if str_eq(directives[i].name.as_str(), name) {
            proof {
                lemma_first_where_is(directives.deep_view(), applies(name@), i as int);
            }
            return Some(i);
        }
        i += 1;
    }
    proof {
        lemma_first_where_none(directives.deep_view(), applies(name@));
    }
    None
}

} // verus!
