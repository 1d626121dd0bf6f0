//! The content of object types: which interfaces each service's object
//! implements, and which fields it has.
use crate::closure::all_closed;
use crate::edits::outcome;
use crate::error::{ErrorView, FederationError, invalid_supergraph};
use crate::fields::add_subgraph_field;
use crate::join::{
    FieldArguments, FieldArgumentsView, JoinSpec, JoinSpecView, or_default, read_target_arguments,
    target_arguments,
};
use crate::names::{graphql_name, graphql_name_spec};
use crate::ordered::{GraphNames, lookup};
use crate::provenance::{applications, field_applications, field_decoder};
use crate::scaffold::{TypeInfo, TypeInfoView};
use crate::schema::{Directive, DirectiveView, Field, FieldView, Schema, SchemaView, TypeKind};
use crate::seqs::try_fold;
use crate::subgraphs::{
    FederationSubgraphs, SubgraphView, edit_at, get_subgraph, lemma_with_schema, names_of, resolve,
};
use crate::supergraph::{required_directive, versioned_directive};
use crate::text::{concat5, concat7, str_eq};
use crate::growth::{
    grown_for, grown_for_records, lemma_grown_chain, lemma_grown_edit, lemma_grown_no_new,
    lemma_grown_of_record, lemma_grown_records_chain,
};
use crate::kinds::{kinds_kept, lemma_kinds_edit, lemma_kinds_kept_chain};
use crate::ordered::lemma_key_listed;
use crate::placement::{
    assigned_to_named, assigned_to_owners, fields_placed, lemma_fields_placed_next,
    lemma_kept_edit, lemma_members_kept_chain, lemma_types_placed_kept, lemma_named_assigned,
    lemma_types_placed_next, lemma_owner_assigned, members_kept, types_placed,
};
use crate::ownership::lemma_resolve;
use vstd::prelude::*;
use vstd::string::*;

verus! {

/// What is said of a supergraph of the current generation that lacks the
/// implements directive.
pub open spec fn msg_no_implements() -> Seq<char> {
    "@join__implements should exist for a fed2 supergraph"@
}

/// What is said of an implements application that names a service which does
/// not own the object.
pub open spec fn msg_implements_without_type(name: Seq<char>, graph: Seq<char>) -> Seq<char> {
    "@join__implements cannot exist on \""@ + name + "\" for subgraph \""@ + graph
        + "\" without type-level @join__type"@
}

/// What is said of a field-level application that names a service which does
/// not own the type.
pub open spec fn msg_field_without_type(
    name: Seq<char>,
    field: Seq<char>,
    graph: Seq<char>,
) -> Seq<char> {
    "@join__field cannot exist on "@ + name + "."@ + field + " for subgraph "@ + graph
        + " without type-level @join__type"@
}

/// The error for a field-level application that names a service which does
/// not own the type.
pub fn field_without_type_error(name: &str, field: &str, graph: &str) -> (r: FederationError)
    ensures
        r@ == invalid_supergraph(msg_field_without_type(name@, field@, graph@)),
{
    FederationError::invalid_supergraph(
        concat7(
            "@join__field cannot exist on ",
            name,
            ".",
            field,
            " for subgraph ",
            graph,
            " without type-level @join__type",
        ),
    )
}

/// The applications that make a field resolvable in their service: those that
/// are neither external nor overridden.
pub open spec fn resolves() -> spec_fn(FieldArgumentsView) -> bool {
    |a: FieldArgumentsView| !or_default(a.external, false) && !or_default(a.user_overridden, false)
}

/// Whether more than one of the applications makes the field resolvable.
pub open spec fn is_shareable(apps: Seq<FieldArgumentsView>) -> bool {
    apps.filter(resolves()).len() > 1
}

/// Whether more than one of the applications makes the field resolvable.
pub fn compute_shareable(apps: &Vec<FieldArguments>) -> (r: bool)
    ensures
        r == is_shareable(apps.deep_view()),
{
    let ghost all = apps.deep_view();
    let mut count: usize = 0;
    let mut i: usize = 0;
    proof {
        reveal(Seq::filter);
        assert(all.take(0) =~= Seq::<FieldArgumentsView>::empty());
    }
    while i < apps.len()
        invariant
            i <= apps.len(),
            all == apps.deep_view(),
            count <= i,
            count == all.take(i as int).filter(resolves()).len(),
        decreases apps.len() - i,
    {
        let external = match apps[i].external {
            Some(b) => b,
            None => false,
        };
        let overridden = match apps[i].user_overridden {
            Some(b) => b,
            None => false,
        };
        proof {
            assert(all.take(i + 1) =~= all.take(i as int).push(all[i as int]));
            all.take(i as int).lemma_filter_push(all[i as int], resolves());
        }
        if !external && !overridden {
            count += 1;
        }
        i += 1;
    }
    assert(all.take(apps.len() as int) =~= all);
    count > 1
}

/// One step of recording what an object implements: an application of the
/// implements directive must name a service that owns the object, and an
/// interface by a name; in the schema of the service the object is then made
/// to implement the interface.
pub open spec fn object_implements_step(
    names: Seq<(Seq<char>, Seq<char>)>,
    implements_directive: Seq<char>,
    info: TypeInfoView,
) -> spec_fn(Seq<SubgraphView>, DirectiveView) -> Result<Seq<SubgraphView>, ErrorView> {
    |subgraphs: Seq<SubgraphView>, d: DirectiveView|
        if d.name != implements_directive {
            Ok(subgraphs)
        } else {
            match target_arguments(d, "interface"@) {
                Err(e) => Err(e),
                Ok(app) => if lookup(info.owners, app.graph).is_none() {
                    Err(invalid_supergraph(msg_implements_without_type(info.name, app.graph)))
                } else {
                    match resolve(names, subgraphs, app.graph) {
                        Err(e) => Err(e),
                        Ok(i) => match graphql_name_spec(app.target) {
                            Err(e) => Err(e),
                            Ok(interface) => edit_at(
                                subgraphs,
                                i,
                                subgraphs[i].schema.insert_implements(
                                    info.name,
                                    TypeKind::Object,
                                    interface,
                                ),
                            ),
                        },
                    }
                },
            }
        }
}

/// One step of giving a field without application to the owners of its
/// object: the owner gets the field as the supergraph has it.
pub open spec fn implicit_object_step(
    names: Seq<(Seq<char>, Seq<char>)>,
    name: Seq<char>,
    field: FieldView,
    shareable: bool,
) -> spec_fn(Seq<SubgraphView>, (Seq<char>, bool)) -> Result<Seq<SubgraphView>, ErrorView> {
    |subgraphs: Seq<SubgraphView>, owner: (Seq<char>, bool)|
        match resolve(names, subgraphs, owner.0) {
            Err(e) => Err(e),
            Ok(i) => edit_at(
                subgraphs,
                i,
                subgraphs[i].schema.add_subgraph_field(
                    name,
                    TypeKind::Object,
                    field,
                    shareable,
                    FieldArgumentsView::none(),
                ),
            ),
        }
}

/// One step of giving a field to the services that its applications name: an
/// application without service is passed over; one with a service, which must
/// own the object, gives that service the field as the application shapes it.
pub open spec fn explicit_object_step(
    names: Seq<(Seq<char>, Seq<char>)>,
    info: TypeInfoView,
    field: FieldView,
    shareable: bool,
) -> spec_fn(Seq<SubgraphView>, FieldArgumentsView) -> Result<Seq<SubgraphView>, ErrorView> {
    |subgraphs: Seq<SubgraphView>, app: FieldArgumentsView|
        match app.graph {
            None => Ok(subgraphs),
            Some(graph) => match resolve(names, subgraphs, graph) {
                Err(e) => Err(e),
                Ok(i) => if lookup(info.owners, graph).is_none() {
                    Err(invalid_supergraph(msg_field_without_type(info.name, field.name, graph)))
                } else {
                    edit_at(
                        subgraphs,
                        i,
                        subgraphs[i].schema.add_subgraph_field(
                            info.name,
                            TypeKind::Object,
                            field,
                            shareable,
                            app,
                        ),
                    )
                },
            },
        }
}

/// One step of giving an object its fields: a field without field-level
/// application goes to every owner of the object, shareable where there is
/// more than one; a field with applications goes to the services that they
/// name, shareable where more than one of them resolves it.
pub open spec fn object_field_step(
    names: Seq<(Seq<char>, Seq<char>)>,
    field_directive: Seq<char>,
    info: TypeInfoView,
) -> spec_fn(Seq<SubgraphView>, FieldView) -> Result<Seq<SubgraphView>, ErrorView> {
    |subgraphs: Seq<SubgraphView>, field: FieldView|
        match applications(field.directives, field_directive, field_decoder()) {
            Err(e) => Err(e),
            Ok(apps) => if apps.len() == 0 {
                try_fold(
                    info.owners,
                    0,
                    subgraphs,
                    implicit_object_step(names, info.name, field, info.owners.len() > 1),
                )
            } else {
                try_fold(
                    apps,
                    0,
                    subgraphs,
                    explicit_object_step(names, info, field, is_shareable(apps)),
                )
            },
        }
}

/// One step of populating objects: the object of the record, which the
/// supergraph must hold, gets its interfaces and then its fields.
pub open spec fn object_type_step(
    supergraph: SchemaView,
    names: Seq<(Seq<char>, Seq<char>)>,
    field_directive: Seq<char>,
    implements_directive: Seq<char>,
) -> spec_fn(Seq<SubgraphView>, TypeInfoView) -> Result<Seq<SubgraphView>, ErrorView> {
    |subgraphs: Seq<SubgraphView>, info: TypeInfoView|
        match supergraph.locate(info.name, TypeKind::Object) {
            Err(e) => Err(e),
            Ok(at) => match try_fold(
                supergraph.types[at].directives,
                0,
                subgraphs,
                object_implements_step(names, implements_directive, info),
            ) {
                Err(e) => Err(e),
                Ok(implemented) => try_fold(
                    supergraph.types[at].fields,
                    0,
                    implemented,
                    object_field_step(names, field_directive, info),
                ),
            },
        }
}

/// The registry after the objects of the records have been populated from
/// `supergraph`.
pub open spec fn object_content(
    supergraph: SchemaView,
    join: JoinSpecView,
    names: Seq<(Seq<char>, Seq<char>)>,
    subgraphs: Seq<SubgraphView>,
    infos: Seq<TypeInfoView>,
) -> Result<Seq<SubgraphView>, ErrorView> {
    match required_directive(supergraph, join, "field"@) {
        Err(e) => Err(e),
        Ok(field_directive) => match versioned_directive(supergraph, join, "implements"@, 2) {
            Err(e) => Err(e),
            Ok(None) => Err(invalid_supergraph(msg_no_implements())),
            Ok(Some(implements_directive)) => try_fold(
                infos,
                0,
                subgraphs,
                object_type_step(supergraph, names, field_directive, implements_directive),
            ),
        },
    }
}

/// Records what the object of `info` implements in each service.
fn object_implements(
    directives: &Vec<Directive>,
    implements_directive: &str,
    info: &TypeInfo,
    subgraphs: &mut FederationSubgraphs,
    names: &GraphNames,
) -> (r: Result<(), FederationError>)
    ensures
        outcome(
            r,
            final(subgraphs)@,
            try_fold(
                directives.deep_view(),
                0,
                old(subgraphs)@,
                object_implements_step(names@, implements_directive@, info.deep_view()),
            ),
        ),
        names_of(final(subgraphs)@) == names_of(old(subgraphs)@),
        kinds_kept(old(subgraphs)@, final(subgraphs)@),
        grown_for(
            old(subgraphs)@,
            final(subgraphs)@,
            names@,
            info.deep_view().name,
            info.deep_view().owners,
        ),
        r is Ok ==> members_kept(old(subgraphs)@, final(subgraphs)@),
        all_closed(old(subgraphs)@) && r is Ok ==> all_closed(final(subgraphs)@),
{
    let ghost all = directives.deep_view();
    let ghost step = object_implements_step(names@, implements_directive@, info.deep_view());
    let mut k: usize = 0;
    while k < directives.len()
        invariant
            k <= directives.len(),
            all == directives.deep_view(),
            step == object_implements_step(names@, implements_directive@, info.deep_view()),
            names_of(subgraphs@) == names_of(old(subgraphs)@),
            kinds_kept(old(subgraphs)@, subgraphs@),
            grown_for(
                old(subgraphs)@,
                subgraphs@,
                names@,
                info.deep_view().name,
                info.deep_view().owners,
            ),
            members_kept(old(subgraphs)@, subgraphs@),
            all_closed(old(subgraphs)@) ==> all_closed(subgraphs@),
            try_fold(all, k as int, subgraphs@, step) == try_fold(all, 0, old(subgraphs)@, step),
        decreases directives.len() - k,
    {
        if str_eq(directives[k].name.as_str(), implements_directive) {
            let app = read_target_arguments(&directives[k], "interface")?;
            if !info.subgraph_info.contains_key(app.graph.as_str()) {
                return Err(
                    FederationError::invalid_supergraph(
                        concat5(
                            "@join__implements cannot exist on \"",
                            info.name.as_str(),
                            "\" for subgraph \"",
                            app.graph.as_str(),
                            "\" without type-level @join__type",
                        ),
                    ),
                );
            }
            let i = get_subgraph(subgraphs, names, app.graph.as_str())?;
            let interface = graphql_name(app.target.as_str())?;
            let ghost before = subgraphs.subgraphs;
            let edited = subgraphs.subgraphs[i].schema.insert_implements(
                info.name.as_str(),
                TypeKind::Object,
                interface.as_str(),
            );
            proof {
                lemma_with_schema(before, subgraphs.subgraphs, i as int);
                lemma_kinds_edit(
                    old(subgraphs)@,
                    before.deep_view(),
                    i as int,
                    subgraphs.subgraphs@[i as int].schema@,
                );
                lemma_grown_no_new(
                    old(subgraphs)@,
                    before.deep_view(),
                    i as int,
                    subgraphs.subgraphs@[i as int].schema@,
                    names@,
                    info.deep_view().name,
                    info.deep_view().owners,
                );
            }
            edited?;
            proof {
                lemma_kept_edit(
                    old(subgraphs)@,
                    before.deep_view(),
                    i as int,
                    subgraphs.subgraphs@[i as int].schema@,
                );
            }
        }
        k += 1;
    }
    Ok(())
}

/// Gives a field without application to every owner of its object.
fn implicit_object_field(
    field: &Field,
    info: &TypeInfo,
    subgraphs: &mut FederationSubgraphs,
    names: &GraphNames,
) -> (r: Result<(), FederationError>)
    ensures
        outcome(
            r,
            final(subgraphs)@,
            try_fold(
                info.deep_view().owners,
                0,
                old(subgraphs)@,
                implicit_object_step(
                    names@,
                    info.deep_view().name,
                    field@,
                    info.deep_view().owners.len() > 1,
                ),
            ),
        ),
        names_of(final(subgraphs)@) == names_of(old(subgraphs)@),
        kinds_kept(old(subgraphs)@, final(subgraphs)@),
        grown_for(
            old(subgraphs)@,
            final(subgraphs)@,
            names@,
            info.deep_view().name,
            info.deep_view().owners,
        ),
        r is Ok ==> members_kept(old(subgraphs)@, final(subgraphs)@) && assigned_to_owners(
            final(subgraphs)@,
            names@,
            info.deep_view().owners,
            info.deep_view().owners.len() as int,
            info.deep_view().name,
            field@.name,
        ),
        all_closed(old(subgraphs)@) && r is Ok ==> all_closed(final(subgraphs)@),
{
    let count = info.subgraph_info.len();
    let shareable = count > 1;
    let none = FieldArguments::none();
    let ghost all = info.deep_view().owners;
    let ghost step = implicit_object_step(names@, info.deep_view().name, field@, shareable);
    let mut k: usize = 0;
    while k < count
        invariant
            k <= count,
            count == all.len(),
            all == info.deep_view().owners,
            none.deep_view() == FieldArgumentsView::none(),
            shareable == (all.len() > 1),
            step == implicit_object_step(names@, info.deep_view().name, field@, shareable),
            names_of(subgraphs@) == names_of(old(subgraphs)@),
            kinds_kept(old(subgraphs)@, subgraphs@),
            grown_for(
                old(subgraphs)@,
                subgraphs@,
                names@,
                info.deep_view().name,
                info.deep_view().owners,
            ),
            members_kept(old(subgraphs)@, subgraphs@),
            assigned_to_owners(
                subgraphs@,
                names@,
                all,
                k as int,
                info.deep_view().name,
                field@.name,
            ),
            all_closed(old(subgraphs)@) ==> all_closed(subgraphs@),
            try_fold(all, k as int, subgraphs@, step) == try_fold(all, 0, old(subgraphs)@, step),
        decreases count - k,
    {
        let graph = info.subgraph_info.key_at(k);
        let i = get_subgraph(subgraphs, names, graph.as_str())?;
        let ghost before = subgraphs.subgraphs;
        let edited = add_subgraph_field(
            &mut subgraphs.subgraphs[i].schema,
            info.name.as_str(),
            TypeKind::Object,
            field,
            shareable,
            &none,
        );
        proof {
            lemma_with_schema(before, subgraphs.subgraphs, i as int);
            lemma_kinds_edit(
                old(subgraphs)@,
                before.deep_view(),
                i as int,
                subgraphs.subgraphs@[i as int].schema@,
            );
            lemma_resolve(names@, before.deep_view(), graph@);
            lemma_key_listed(info.deep_view().owners, k as int);
            lemma_grown_edit(
                old(subgraphs)@,
                before.deep_view(),
                i as int,
                subgraphs.subgraphs@[i as int].schema@,
                names@,
                info.deep_view().name,
                info.deep_view().owners,
                graph@,
            );
        }
        edited?;
        proof {
            lemma_owner_assigned(
                old(subgraphs)@,
                before.deep_view(),
                i as int,
                subgraphs.subgraphs@[i as int].schema@,
                names@,
                all,
                k as int,
                info.deep_view().name,
                field@.name,
            );
        }
        k += 1;
    }
    Ok(())
}

/// Gives a field to the services that its applications name.
fn explicit_object_field(
    field: &Field,
    apps: &Vec<FieldArguments>,
    info: &TypeInfo,
    subgraphs: &mut FederationSubgraphs,
    names: &GraphNames,
) -> (r: Result<(), FederationError>)
    ensures
        outcome(
            r,
            final(subgraphs)@,
            try_fold(
                apps.deep_view(),
                0,
                old(subgraphs)@,
                explicit_object_step(
                    names@,
                    info.deep_view(),
                    field@,
                    is_shareable(apps.deep_view()),
                ),
            ),
        ),
        names_of(final(subgraphs)@) == names_of(old(subgraphs)@),
        kinds_kept(old(subgraphs)@, final(subgraphs)@),
        grown_for(
            old(subgraphs)@,
            final(subgraphs)@,
            names@,
            info.deep_view().name,
            info.deep_view().owners,
        ),
        r is Ok ==> members_kept(old(subgraphs)@, final(subgraphs)@) && assigned_to_named(
            final(subgraphs)@,
            names@,
            apps.deep_view(),
            apps.len() as int,
            info.deep_view().name,
            field@.name,
        ),
        all_closed(old(subgraphs)@) && r is Ok ==> all_closed(final(subgraphs)@),
{
    let shareable = compute_shareable(apps);
    let ghost all = apps.deep_view();
    let ghost step = explicit_object_step(names@, info.deep_view(), field@, shareable);
    let mut k: usize = 0;
    while k < apps.len()
        invariant
            k <= apps.len(),
            all == apps.deep_view(),
            shareable == is_shareable(all),
            step == explicit_object_step(names@, info.deep_view(), field@, shareable),
            names_of(subgraphs@) == names_of(old(subgraphs)@),
            kinds_kept(old(subgraphs)@, subgraphs@),
            grown_for(
                old(subgraphs)@,
                subgraphs@,
                names@,
                info.deep_view().name,
                info.deep_view().owners,
            ),
            members_kept(old(subgraphs)@, subgraphs@),
            assigned_to_named(
                subgraphs@,
                names@,
                all,
                k as int,
                info.deep_view().name,
                field@.name,
            ),
            all_closed(old(subgraphs)@) ==> all_closed(subgraphs@),
            try_fold(all, k as int, subgraphs@, step) == try_fold(all, 0, old(subgraphs)@, step),
        decreases apps.len() - k,
    {
        if let Some(graph) = &apps[k].graph {
            let i = get_subgraph(subgraphs, names, graph.as_str())?;
            if !info.subgraph_info.contains_key(graph.as_str()) {
                return Err(
                    field_without_type_error(
                        info.name.as_str(),
                        field.name.as_str(),
                        graph.as_str(),
                    ),
                );
            }
            let ghost before = subgraphs.subgraphs;
            let edited = add_subgraph_field(
                &mut subgraphs.subgraphs[i].schema,
                info.name.as_str(),
                TypeKind::Object,
                field,
                shareable,
                &apps[k],
            );
            proof {
                lemma_with_schema(before, subgraphs.subgraphs, i as int);
                lemma_kinds_edit(
                    old(subgraphs)@,
                    before.deep_view(),
                    i as int,
                    subgraphs.subgraphs@[i as int].schema@,
                );
                lemma_resolve(names@, before.deep_view(), graph@);
                lemma_grown_edit(
                    old(subgraphs)@,
                    before.deep_view(),
                    i as int,
                    subgraphs.subgraphs@[i as int].schema@,
                    names@,
                    info.deep_view().name,
                    info.deep_view().owners,
                    graph@,
                );
            }
            edited?;
            proof {
                lemma_named_assigned(
                    old(subgraphs)@,
                    before.deep_view(),
                    i as int,
                    subgraphs.subgraphs@[i as int].schema@,
                    names@,
                    all,
                    k as int,
                    info.deep_view().name,
                    field@.name,
                );
            }
        }
        k += 1;
    }
    Ok(())
}

/// Gives the object of `info` its fields in each service.
fn object_fields(
    fields: &Vec<Field>,
    field_directive: &str,
    info: &TypeInfo,
    subgraphs: &mut FederationSubgraphs,
    names: &GraphNames,
) -> (r: Result<(), FederationError>)
    ensures
        outcome(
            r,
            final(subgraphs)@,
            try_fold(
                fields.deep_view(),
                0,
                old(subgraphs)@,
                object_field_step(names@, field_directive@, info.deep_view()),
            ),
        ),
        names_of(final(subgraphs)@) == names_of(old(subgraphs)@),
        kinds_kept(old(subgraphs)@, final(subgraphs)@),
        grown_for(
            old(subgraphs)@,
            final(subgraphs)@,
            names@,
            info.deep_view().name,
            info.deep_view().owners,
        ),
        r is Ok ==> members_kept(old(subgraphs)@, final(subgraphs)@) && fields_placed(
            final(subgraphs)@,
            names@,
            field_directive@,
            info.deep_view(),
            fields.deep_view(),
            fields.len() as int,
        ),
        all_closed(old(subgraphs)@) && r is Ok ==> all_closed(final(subgraphs)@),
{
    let ghost all = fields.deep_view();
    let ghost step = object_field_step(names@, field_directive@, info.deep_view());
    let mut k: usize = 0;
    while k < fields.len()
        invariant
            k <= fields.len(),
            all == fields.deep_view(),
            step == object_field_step(names@, field_directive@, info.deep_view()),
            names_of(subgraphs@) == names_of(old(subgraphs)@),
            kinds_kept(old(subgraphs)@, subgraphs@),
            grown_for(
                old(subgraphs)@,
                subgraphs@,
                names@,
                info.deep_view().name,
                info.deep_view().owners,
            ),
            members_kept(old(subgraphs)@, subgraphs@),
            fields_placed(
                subgraphs@,
                names@,
                field_directive@,
                info.deep_view(),
                all,
                k as int,
            ),
            all_closed(old(subgraphs)@) ==> all_closed(subgraphs@),
            try_fold(all, k as int, subgraphs@, step) == try_fold(all, 0, old(subgraphs)@, step),
        decreases fields.len() - k,
    {
        let field = &fields[k];
        let apps = field_applications(&field.directives, field_directive)?;
        if apps.len() == 0 {
            let ghost head = subgraphs@;
            let done = implicit_object_field(field, info, subgraphs, names);
            proof {
                lemma_kinds_kept_chain(old(subgraphs)@, head, subgraphs@);
                lemma_grown_chain(
                    old(subgraphs)@,
                    head,
                    subgraphs@,
                    names@,
                    info.deep_view().name,
                    info.deep_view().owners,
                );
            }
            done?;
            proof {
                lemma_fields_placed_next(
                    old(subgraphs)@,
                    head,
                    subgraphs@,
                    names@,
                    field_directive@,
                    info.deep_view(),
                    all,
                    k as int,
                );
            }
        } else {
            let ghost head = subgraphs@;
            let done = explicit_object_field(field, &apps, info, subgraphs, names);
            proof {
                lemma_kinds_kept_chain(old(subgraphs)@, head, subgraphs@);
                lemma_grown_chain(
                    old(subgraphs)@,
                    head,
                    subgraphs@,
                    names@,
                    info.deep_view().name,
                    info.deep_view().owners,
                );
            }
            done?;
            proof {
                lemma_fields_placed_next(
                    old(subgraphs)@,
                    head,
                    subgraphs@,
                    names@,
                    field_directive@,
                    info.deep_view(),
                    all,
                    k as int,
                );
            }
        }
        k += 1;
    }
    Ok(())
}

/// Populates the objects of the records: in each service that owns an
/// object, the interfaces that it implements there and the fields that it has
/// there.
pub fn extract_object_type_content(
    supergraph: &Schema,
    subgraphs: &mut FederationSubgraphs,
    names: &GraphNames,
    join: &JoinSpec,
    infos: &Vec<TypeInfo>,
) -> (r: Result<(), FederationError>)
    ensures
        outcome(
            r,
            final(subgraphs)@,
            object_content(supergraph@, join@, names@, old(subgraphs)@, infos.deep_view()),
        ),
        names_of(final(subgraphs)@) == names_of(old(subgraphs)@),
        kinds_kept(old(subgraphs)@, final(subgraphs)@),
        grown_for_records(old(subgraphs)@, final(subgraphs)@, names@, infos.deep_view()),
        r is Ok ==> members_kept(old(subgraphs)@, final(subgraphs)@) && types_placed(
            final(subgraphs)@,
            names@,
            required_directive(supergraph@, join@, "field"@)->Ok_0,
            supergraph@,
            TypeKind::Object,
            infos.deep_view(),
            infos.len() as int,
        ),
        all_closed(old(subgraphs)@) && r is Ok ==> all_closed(final(subgraphs)@),
{
    let field_directive = join.required_directive(supergraph, "field")?;
    let implements_directive = match join.versioned_directive(supergraph, "implements", 2)? {
        Some(name) => name,
        None => {
            return Err(
                FederationError::invalid_supergraph(
                    String::from_str("@join__implements should exist for a fed2 supergraph"),
                ),
            );
        },
    };
    let ghost all = infos.deep_view();
    let ghost step = object_type_step(supergraph@, names@, field_directive@, implements_directive@);
    let mut k: usize = 0;
    while k < infos.len()
        invariant
            k <= infos.len(),
            all == infos.deep_view(),
            step == object_type_step(supergraph@, names@, field_directive@, implements_directive@),
            object_content(supergraph@, join@, names@, old(subgraphs)@, all) == try_fold(
                all,
                0,
                old(subgraphs)@,
                step,
            ),
            names_of(subgraphs@) == names_of(old(subgraphs)@),
            kinds_kept(old(subgraphs)@, subgraphs@),
            grown_for_records(old(subgraphs)@, subgraphs@, names@, infos.deep_view()),
            required_directive(supergraph@, join@, "field"@) is Ok,
            required_directive(supergraph@, join@, "field"@)->Ok_0 == field_directive@,
            members_kept(old(subgraphs)@, subgraphs@),
            types_placed(
                subgraphs@,
                names@,
                field_directive@,
                supergraph@,
                TypeKind::Object,
                all,
                k as int,
            ),
            all_closed(old(subgraphs)@) ==> all_closed(subgraphs@),
            try_fold(all, k as int, subgraphs@, step) == try_fold(all, 0, old(subgraphs)@, step),
        decreases infos.len() - k,
    {
        let info = &infos[k];
        let at = supergraph.locate(info.name.as_str(), TypeKind::Object)?;
        let t = &supergraph.types[at];
        let ghost head = subgraphs@;
        let done = object_implements(
            &t.directives,
            implements_directive.as_str(),
            info,
            subgraphs,
            names,
        );
        proof {
            lemma_kinds_kept_chain(old(subgraphs)@, head, subgraphs@);
            lemma_grown_of_record(head, subgraphs@, names@, infos.deep_view(), k as int);
            lemma_grown_records_chain(
                old(subgraphs)@,
                head,
                subgraphs@,
                names@,
                infos.deep_view(),
            );
        }
        done?;
        proof {
            lemma_members_kept_chain(old(subgraphs)@, head, subgraphs@);
            lemma_types_placed_kept(
                head,
                subgraphs@,
                names@,
                field_directive@,
                supergraph@,
                TypeKind::Object,
                all,
                k as int,
            );
        }
        let ghost head = subgraphs@;
        let done = object_fields(&t.fields, field_directive.as_str(), info, subgraphs, names);
        proof {
            lemma_kinds_kept_chain(old(subgraphs)@, head, subgraphs@);
            lemma_grown_of_record(head, subgraphs@, names@, infos.deep_view(), k as int);
            lemma_grown_records_chain(
                old(subgraphs)@,
                head,
                subgraphs@,
                names@,
                infos.deep_view(),
            );
        }
        done?;
        proof {
            lemma_types_placed_next(
                old(subgraphs)@,
                head,
                subgraphs@,
                names@,
                field_directive@,
                supergraph@,
                TypeKind::Object,
                all,
                k as int,
            );
        }
        k += 1;
    }
    Ok(())
}

} // verus!
