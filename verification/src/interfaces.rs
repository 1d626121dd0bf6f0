//! The content of interface types. A service holds a supergraph interface
//! either as an interface or, where it projects it as an interface object, as
//! an object; the interfaces that it implements and its fields go to whichever
//! the service holds.
use crate::closure::all_closed;
use crate::edits::{msg_no_type, outcome};
use crate::error::{ErrorView, FederationError, internal, invalid_supergraph};
use crate::fields::add_subgraph_field;
use crate::join::{
    FieldArguments, FieldArgumentsView, JoinSpec, JoinSpecView, read_target_arguments,
    target_arguments,
};
use crate::names::{graphql_name, graphql_name_spec};
use crate::objects::{field_without_type_error, msg_field_without_type, msg_no_implements};
use crate::ordered::{GraphNames, OwnerFlags, lookup};
use crate::provenance::{applications, field_applications, field_decoder};
use crate::scaffold::{TypeInfo, TypeInfoView};
use crate::schema::{Directive, DirectiveView, Field, FieldView, Schema, SchemaView, TypeKind};
use crate::seqs::try_fold;
use crate::subgraphs::{
    FederationSubgraphs, SubgraphView, edit_at, get_subgraph, lemma_with_schema, names_of, resolve,
};
use crate::supergraph::{required_directive, versioned_directive};
use crate::text::{concat3, concat5, str_eq};
use crate::growth::{
    grown_for, grown_for_records, lemma_grown_chain, lemma_grown_edit, lemma_grown_no_new,
    lemma_grown_of_record, lemma_grown_records_chain,
};
use crate::kinds::{kinds_kept, lemma_kinds_edit, lemma_kinds_kept_chain};
use crate::ordered::lemma_key_listed;
use crate::placement::{
    assigned_to_named, assigned_to_owners, fields_placed, lemma_fields_placed_next,
    lemma_kept_edit, lemma_members_kept_chain, lemma_types_placed_kept, lemma_named_assigned,
    lemma_types_placed_next, lemma_owner_assigned, members_kept, types_placed,
};
use crate::ownership::lemma_resolve;
use vstd::prelude::*;
use vstd::string::*;

verus! {

/// What is said of a service that does not own the interface.
pub open spec fn msg_not_owner(name: Seq<char>, graph: Seq<char>) -> Seq<char> {
    "@join__implements cannot exist on "@ + name + " for subgraph "@ + graph
        + " without type-level @join__type"@
}

/// What is said where a service holds as an object an interface that it owns
/// as an interface.
pub open spec fn msg_unexpected_object() -> Seq<char> {
    "\"extract_interface_type_content()\" encountered an unexpected interface object type in subgraph"@
}

/// What is said where a service holds as an interface an interface that it
/// owns as an interface object.
pub open spec fn msg_unexpected_interface() -> Seq<char> {
    "\"extract_interface_type_content()\" encountered an interface type in subgraph that should have been an interface object"@
}

/// What is said where a service holds an interface as neither object nor
/// interface.
pub open spec fn msg_unexpected_kind() -> Seq<char> {
    "\"extract_interface_type_content()\" encountered non-object/interface type in subgraph"@
}

/// The kind under which the service `graph`, whose schema is `schema`, holds
/// the supergraph interface `name`: an object where the service owns it as an
/// interface object, an interface where it owns it otherwise. A service that
/// does not own the interface is malformed input; a schema that holds the
/// type under the other kind, or not at all, is an internal error.
pub open spec fn interface_destination(
    schema: SchemaView,
    owners: Seq<(Seq<char>, bool)>,
    graph: Seq<char>,
    name: Seq<char>,
) -> Result<TypeKind, ErrorView> {
    match lookup(owners, graph) {
        None => Err(invalid_supergraph(msg_not_owner(name, graph))),
        Some(is_interface_object) => match schema.type_index(name) {
            None => Err(internal(msg_no_type(name))),
            Some(i) => match schema.types[i].kind {
                TypeKind::Object => if is_interface_object {
                    Ok(TypeKind::Object)
                } else {
                    Err(internal(msg_unexpected_object()))
                },
                TypeKind::Interface => if is_interface_object {
                    Err(internal(msg_unexpected_interface()))
                } else {
                    Ok(TypeKind::Interface)
                },
                _ => Err(internal(msg_unexpected_kind())),
            },
        },
    }
}

/// The kind under which the service `graph` holds the supergraph interface
/// `name`.
pub fn find_interface_destination(
    schema: &Schema,
    owners: &OwnerFlags,
    graph: &str,
    name: &str,
) -> (r: Result<TypeKind, FederationError>)
    ensures
        match interface_destination(schema@, owners@, graph@, name@) {
            Ok(kind) => r == Ok::<TypeKind, FederationError>(kind),
            Err(e) => r is Err && r->Err_0@ == e,
        },
{
    let is_interface_object = match owners.get(graph) {
        None => {
            return Err(
                FederationError::invalid_supergraph(
                    concat5(
                        "@join__implements cannot exist on ",
                        name,
                        " for subgraph ",
                        graph,
                        " without type-level @join__type",
                    ),
                ),
            );
        },
        Some(flag) => flag,
    };
    let i = match schema.find_type(name) {
        None => {
            return Err(FederationError::internal(concat3("Schema has no type \"", name, "\"")));
        },
        Some(i) => i,
    };
    match schema.types[i].kind {
        TypeKind::Object => {
            if is_interface_object {
                Ok(TypeKind::Object)
            } else {
                Err(
                    FederationError::internal(
                        String::from_str(
                            "\"extract_interface_type_content()\" encountered an unexpected interface object type in subgraph",
                        ),
                    ),
                )
            }
        },
        TypeKind::Interface => {
            if is_interface_object {
                Err(
                    FederationError::internal(
                        String::from_str(
                            "\"extract_interface_type_content()\" encountered an interface type in subgraph that should have been an interface object",
                        ),
                    ),
                )
            } else {
                Ok(TypeKind::Interface)
            }
        },
        _ => Err(
            FederationError::internal(
                String::from_str(
                    "\"extract_interface_type_content()\" encountered non-object/interface type in subgraph",
                ),
            ),
        ),
    }
}

/// One step of recording what an interface implements: the service that an
/// application of the implements directive names gets the interface, on the
/// type under which it holds the implementing one.
pub open spec fn interface_implements_step(
    names: Seq<(Seq<char>, Seq<char>)>,
    implements_directive: Seq<char>,
    info: TypeInfoView,
) -> spec_fn(Seq<SubgraphView>, DirectiveView) -> Result<Seq<SubgraphView>, ErrorView> {
    |subgraphs: Seq<SubgraphView>, d: DirectiveView|
        if d.name != implements_directive {
            Ok(subgraphs)
        } else {
            match target_arguments(d, "interface"@) {
                Err(e) => Err(e),
                Ok(app) => match resolve(names, subgraphs, app.graph) {
                    Err(e) => Err(e),
                    Ok(i) => match interface_destination(
                        subgraphs[i].schema,
                        info.owners,
                        app.graph,
                        info.name,
                    ) {
                        Err(e) => Err(e),
                        Ok(kind) => match graphql_name_spec(app.target) {
                            Err(e) => Err(e),
                            Ok(interface) => edit_at(
                                subgraphs,
                                i,
                                subgraphs[i].schema.insert_implements(info.name, kind, interface),
                            ),
                        },
                    },
                },
            }
        }
}

/// One step of giving a field without application to the owners of its
/// interface: the owner gets the field as the supergraph has it, never
/// shareable.
pub open spec fn implicit_interface_step(
    names: Seq<(Seq<char>, Seq<char>)>,
    info: TypeInfoView,
    field: FieldView,
) -> spec_fn(Seq<SubgraphView>, (Seq<char>, bool)) -> Result<Seq<SubgraphView>, ErrorView> {
    |subgraphs: Seq<SubgraphView>, owner: (Seq<char>, bool)|
        match resolve(names, subgraphs, owner.0) {
            Err(e) => Err(e),
            Ok(i) => match interface_destination(
                subgraphs[i].schema,
                info.owners,
                owner.0,
                info.name,
            ) {
                Err(e) => Err(e),
                Ok(kind) => edit_at(
                    subgraphs,
                    i,
                    subgraphs[i].schema.add_subgraph_field(
                        info.name,
                        kind,
                        field,
                        false,
                        FieldArgumentsView::none(),
                    ),
                ),
            },
        }
}

/// One step of giving a field to the services that its applications name: an
/// application without service is passed over; one with a service, which must
/// own the interface, gives that service the field as the application shapes
/// it, never shareable, on the type under which the service holds the
/// interface.
pub open spec fn explicit_interface_step(
    names: Seq<(Seq<char>, Seq<char>)>,
    info: TypeInfoView,
    field: FieldView,
) -> spec_fn(Seq<SubgraphView>, FieldArgumentsView) -> Result<Seq<SubgraphView>, ErrorView> {
    |subgraphs: Seq<SubgraphView>, app: FieldArgumentsView|
        match app.graph {
            None => Ok(subgraphs),
            Some(graph) => match resolve(names, subgraphs, graph) {
                Err(e) => Err(e),
                Ok(i) => if lookup(info.owners, graph).is_none() {
                    Err(invalid_supergraph(msg_field_without_type(info.name, field.name, graph)))
                } else {
                    match interface_destination(
                        subgraphs[i].schema,
                        info.owners,
                        graph,
                        info.name,
                    ) {
                        Err(e) => Err(e),
                        Ok(kind) => edit_at(
                            subgraphs,
                            i,
                            subgraphs[i].schema.add_subgraph_field(
                                info.name,
                                kind,
                                field,
                                false,
                                app,
                            ),
                        ),
                    }
                },
            },
        }
}

/// One step of giving an interface its fields: a field without field-level
/// application goes to every owner of the interface, a field with
/// applications to the services that they name.
pub open spec fn interface_field_step(
    names: Seq<(Seq<char>, Seq<char>)>,
    field_directive: Seq<char>,
    info: TypeInfoView,
) -> spec_fn(Seq<SubgraphView>, FieldView) -> Result<Seq<SubgraphView>, ErrorView> {
    |subgraphs: Seq<SubgraphView>, field: FieldView|
        match applications(field.directives, field_directive, field_decoder()) {
            Err(e) => Err(e),
            Ok(apps) => if apps.len() == 0 {
                try_fold(info.owners, 0, subgraphs, implicit_interface_step(names, info, field))
            } else {
                try_fold(apps, 0, subgraphs, explicit_interface_step(names, info, field))
            },
        }
}

/// One step of populating interfaces: the interface of the record, which the
/// supergraph must hold, gets its interfaces and then its fields.
pub open spec fn interface_type_step(
    supergraph: SchemaView,
    names: Seq<(Seq<char>, Seq<char>)>,
    field_directive: Seq<char>,
    implements_directive: Seq<char>,
) -> spec_fn(Seq<SubgraphView>, TypeInfoView) -> Result<Seq<SubgraphView>, ErrorView> {
    |subgraphs: Seq<SubgraphView>, info: TypeInfoView|
        match supergraph.locate(info.name, TypeKind::Interface) {
            Err(e) => Err(e),
            Ok(at) => match try_fold(
                supergraph.types[at].directives,
                0,
                subgraphs,
                interface_implements_step(names, implements_directive, info),
            ) {
                Err(e) => Err(e),
                Ok(implemented) => try_fold(
                    supergraph.types[at].fields,
                    0,
                    implemented,
                    interface_field_step(names, field_directive, info),
                ),
            },
        }
}

/// The registry after the interfaces of the records have been populated from
/// `supergraph`.
pub open spec fn interface_content(
    supergraph: SchemaView,
    join: JoinSpecView,
    names: Seq<(Seq<char>, Seq<char>)>,
    subgraphs: Seq<SubgraphView>,
    infos: Seq<TypeInfoView>,
) -> Result<Seq<SubgraphView>, ErrorView> {
    match required_directive(supergraph, join, "field"@) {
        Err(e) => Err(e),
        Ok(field_directive) => match versioned_directive(supergraph, join, "implements"@, 2) {
            Err(e) => Err(e),
            Ok(None) => Err(invalid_supergraph(msg_no_implements())),
            Ok(Some(implements_directive)) => try_fold(
                infos,
                0,
                subgraphs,
                interface_type_step(supergraph, names, field_directive, implements_directive),
            ),
        },
    }
}

/// Records what the interface of `info` implements in each service.
fn interface_implements(
    directives: &Vec<Directive>,
    implements_directive: &str,
    info: &TypeInfo,
    subgraphs: &mut FederationSubgraphs,
    names: &GraphNames,
) -> (r: Result<(), FederationError>)
    ensures
        outcome(
            r,
            final(subgraphs)@,
            try_fold(
                directives.deep_view(),
                0,
                old(subgraphs)@,
                interface_implements_step(names@, implements_directive@, info.deep_view()),
            ),
        ),
        names_of(final(subgraphs)@) == names_of(old(subgraphs)@),
        kinds_kept(old(subgraphs)@, final(subgraphs)@),
        grown_for(
            old(subgraphs)@,
            final(subgraphs)@,
            names@,
            info.deep_view().name,
            info.deep_view().owners,
        ),
        r is Ok ==> members_kept(old(subgraphs)@, final(subgraphs)@),
        all_closed(old(subgraphs)@) && r is Ok ==> all_closed(final(subgraphs)@),
{
    let ghost all = directives.deep_view();
    let ghost step = interface_implements_step(names@, implements_directive@, info.deep_view());
    let mut k: usize = 0;
    while k < directives.len()
        invariant
            k <= directives.len(),
            all == directives.deep_view(),
            step == interface_implements_step(names@, implements_directive@, info.deep_view()),
            names_of(subgraphs@) == names_of(old(subgraphs)@),
            kinds_kept(old(subgraphs)@, subgraphs@),
            grown_for(
                old(subgraphs)@,
                subgraphs@,
                names@,
                info.deep_view().name,
                info.deep_view().owners,
            ),
            members_kept(old(subgraphs)@, subgraphs@),
            all_closed(old(subgraphs)@) ==> all_closed(subgraphs@),
            try_fold(all, k as int, subgraphs@, step) == try_fold(all, 0, old(subgraphs)@, step),
        decreases directives.len() - k,
    {
        if str_eq(directives[k].name.as_str(), implements_directive) {
            let app = read_target_arguments(&directives[k], "interface")?;
            let i = get_subgraph(subgraphs, names, app.graph.as_str())?;
            let kind = find_interface_destination(
                &subgraphs.subgraphs[i].schema,
                &info.subgraph_info,
                app.graph.as_str(),
                info.name.as_str(),
            )?;
            let interface = graphql_name(app.target.as_str())?;
            let ghost before = subgraphs.subgraphs;
            let edited = subgraphs.subgraphs[i].schema.insert_implements(
                info.name.as_str(),
                kind,
                interface.as_str(),
            );
            proof {
                lemma_with_schema(before, subgraphs.subgraphs, i as int);
                lemma_kinds_edit(
                    old(subgraphs)@,
                    before.deep_view(),
                    i as int,
                    subgraphs.subgraphs@[i as int].schema@,
                );
                lemma_grown_no_new(
                    old(subgraphs)@,
                    before.deep_view(),
                    i as int,
                    subgraphs.subgraphs@[i as int].schema@,
                    names@,
                    info.deep_view().name,
                    info.deep_view().owners,
                );
            }
            edited?;
            proof {
                lemma_kept_edit(
                    old(subgraphs)@,
                    before.deep_view(),
                    i as int,
                    subgraphs.subgraphs@[i as int].schema@,
                );
            }
        }
        k += 1;
    }
    Ok(())
}

/// Gives a field without application to every owner of its interface.
fn implicit_interface_field(
    field: &Field,
    info: &TypeInfo,
    subgraphs: &mut FederationSubgraphs,
    names: &GraphNames,
) -> (r: Result<(), FederationError>)
    ensures
        outcome(
            r,
            final(subgraphs)@,
            try_fold(
                info.deep_view().owners,
                0,
                old(subgraphs)@,
                implicit_interface_step(names@, info.deep_view(), field@),
            ),
        ),
        names_of(final(subgraphs)@) == names_of(old(subgraphs)@),
        kinds_kept(old(subgraphs)@, final(subgraphs)@),
        grown_for(
            old(subgraphs)@,
            final(subgraphs)@,
            names@,
            info.deep_view().name,
            info.deep_view().owners,
        ),
        r is Ok ==> members_kept(old(subgraphs)@, final(subgraphs)@) && assigned_to_owners(
            final(subgraphs)@,
            names@,
            info.deep_view().owners,
            info.deep_view().owners.len() as int,
            info.deep_view().name,
            field@.name,
        ),
        all_closed(old(subgraphs)@) && r is Ok ==> all_closed(final(subgraphs)@),
{
    let count = info.subgraph_info.len();
    let none = FieldArguments::none();
    let ghost all = info.deep_view().owners;
    let ghost step = implicit_interface_step(names@, info.deep_view(), field@);
    let mut k: usize = 0;
    while k < count
        invariant
            k <= count,
            count == all.len(),
            all == info.deep_view().owners,
            none.deep_view() == FieldArgumentsView::none(),
            step == implicit_interface_step(names@, info.deep_view(), field@),
            names_of(subgraphs@) == names_of(old(subgraphs)@),
            kinds_kept(old(subgraphs)@, subgraphs@),
            grown_for(
                old(subgraphs)@,
                subgraphs@,
                names@,
                info.deep_view().name,
                info.deep_view().owners,
            ),
            members_kept(old(subgraphs)@, subgraphs@),
            assigned_to_owners(
                subgraphs@,
                names@,
                all,
                k as int,
                info.deep_view().name,
                field@.name,
            ),
            all_closed(old(subgraphs)@) ==> all_closed(subgraphs@),
            try_fold(all, k as int, subgraphs@, step) == try_fold(all, 0, old(subgraphs)@, step),
        decreases count - k,
    {
        let graph = info.subgraph_info.key_at(k);
        let i = get_subgraph(subgraphs, names, graph.as_str())?;
        let kind = find_interface_destination(
            &subgraphs.subgraphs[i].schema,
            &info.subgraph_info,
            graph.as_str(),
            info.name.as_str(),
        )?;
        let ghost before = subgraphs.subgraphs;
        let edited = add_subgraph_field(
            &mut subgraphs.subgraphs[i].schema,
            info.name.as_str(),
            kind,
            field,
            false,
            &none,
        );
        proof {
            lemma_with_schema(before, subgraphs.subgraphs, i as int);
            lemma_kinds_edit(
                old(subgraphs)@,
                before.deep_view(),
                i as int,
                subgraphs.subgraphs@[i as int].schema@,
            );
            lemma_resolve(names@, before.deep_view(), graph@);
            lemma_key_listed(info.deep_view().owners, k as int);
            lemma_grown_edit(
                old(subgraphs)@,
                before.deep_view(),
                i as int,
                subgraphs.subgraphs@[i as int].schema@,
                names@,
                info.deep_view().name,
                info.deep_view().owners,
                graph@,
            );
        }
        edited?;
        proof {
            lemma_owner_assigned(
                old(subgraphs)@,
                before.deep_view(),
                i as int,
                subgraphs.subgraphs@[i as int].schema@,
                names@,
                all,
                k as int,
                info.deep_view().name,
                field@.name,
            );
        }
        k += 1;
    }
    Ok(())
}

/// Gives a field to the services that its applications name.
fn explicit_interface_field(
    field: &Field,
    apps: &Vec<FieldArguments>,
    info: &TypeInfo,
    subgraphs: &mut FederationSubgraphs,
    names: &GraphNames,
) -> (r: Result<(), FederationError>)
    ensures
        outcome(
            r,
            final(subgraphs)@,
            try_fold(
                apps.deep_view(),
                0,
                old(subgraphs)@,
                explicit_interface_step(names@, info.deep_view(), field@),
            ),
        ),
        names_of(final(subgraphs)@) == names_of(old(subgraphs)@),
        kinds_kept(old(subgraphs)@, final(subgraphs)@),
        grown_for(
            old(subgraphs)@,
            final(subgraphs)@,
            names@,
            info.deep_view().name,
            info.deep_view().owners,
        ),
        r is Ok ==> members_kept(old(subgraphs)@, final(subgraphs)@) && assigned_to_named(
            final(subgraphs)@,
            names@,
            apps.deep_view(),
            apps.len() as int,
            info.deep_view().name,
            field@.name,
        ),
        all_closed(old(subgraphs)@) && r is Ok ==> all_closed(final(subgraphs)@),
{
    let ghost all = apps.deep_view();
    let ghost step = explicit_interface_step(names@, info.deep_view(), field@);
    let mut k: usize = 0;
    while k < apps.len()
        invariant
            k <= apps.len(),
            all == apps.deep_view(),
            step == explicit_interface_step(names@, info.deep_view(), field@),
            names_of(subgraphs@) == names_of(old(subgraphs)@),
            kinds_kept(old(subgraphs)@, subgraphs@),
            grown_for(
                old(subgraphs)@,
                subgraphs@,
                names@,
                info.deep_view().name,
                info.deep_view().owners,
            ),
            members_kept(old(subgraphs)@, subgraphs@),
            assigned_to_named(
                subgraphs@,
                names@,
                all,
                k as int,
                info.deep_view().name,
                field@.name,
            ),
            all_closed(old(subgraphs)@) ==> all_closed(subgraphs@),
            try_fold(all, k as int, subgraphs@, step) == try_fold(all, 0, old(subgraphs)@, step),
        decreases apps.len() - k,
    {
        if let Some(graph) = &apps[k].graph {
            let i = get_subgraph(subgraphs, names, graph.as_str())?;
            if !info.subgraph_info.contains_key(graph.as_str()) {
                return Err(
                    field_without_type_error(
                        info.name.as_str(),
                        field.name.as_str(),
                        graph.as_str(),
                    ),
                );
            }
            let kind = find_interface_destination(
                &subgraphs.subgraphs[i].schema,
                &info.subgraph_info,
                graph.as_str(),
                info.name.as_str(),
            )?;
            let ghost before = subgraphs.subgraphs;
            let edited = add_subgraph_field(
                &mut subgraphs.subgraphs[i].schema,
                info.name.as_str(),
                kind,
                field,
                false,
                &apps[k],
            );
            proof {
                lemma_with_schema(before, subgraphs.subgraphs, i as int);
                lemma_kinds_edit(
                    old(subgraphs)@,
                    before.deep_view(),
                    i as int,
                    subgraphs.subgraphs@[i as int].schema@,
                );
                lemma_resolve(names@, before.deep_view(), graph@);
                lemma_grown_edit(
                    old(subgraphs)@,
                    before.deep_view(),
                    i as int,
                    subgraphs.subgraphs@[i as int].schema@,
                    names@,
                    info.deep_view().name,
                    info.deep_view().owners,
                    graph@,
                );
            }
            edited?;
            proof {
                lemma_named_assigned(
                    old(subgraphs)@,
                    before.deep_view(),
                    i as int,
                    subgraphs.subgraphs@[i as int].schema@,
                    names@,
                    all,
                    k as int,
                    info.deep_view().name,
                    field@.name,
                );
            }
        }
        k += 1;
    }
    Ok(())
}

/// Gives the interface of `info` its fields in each service.
fn interface_fields(
    fields: &Vec<Field>,
    field_directive: &str,
    info: &TypeInfo,
    subgraphs: &mut FederationSubgraphs,
    names: &GraphNames,
) -> (r: Result<(), FederationError>)
    ensures
        outcome(
            r,
            final(subgraphs)@,
            try_fold(
                fields.deep_view(),
                0,
                old(subgraphs)@,
                interface_field_step(names@, field_directive@, info.deep_view()),
            ),
        ),
        names_of(final(subgraphs)@) == names_of(old(subgraphs)@),
        kinds_kept(old(subgraphs)@, final(subgraphs)@),
        grown_for(
            old(subgraphs)@,
            final(subgraphs)@,
            names@,
            info.deep_view().name,
            info.deep_view().owners,
        ),
        r is Ok ==> members_kept(old(subgraphs)@, final(subgraphs)@) && fields_placed(
            final(subgraphs)@,
            names@,
            field_directive@,
            info.deep_view(),
            fields.deep_view(),
            fields.len() as int,
        ),
        all_closed(old(subgraphs)@) && r is Ok ==> all_closed(final(subgraphs)@),
{
    let ghost all = fields.deep_view();
    let ghost step = interface_field_step(names@, field_directive@, info.deep_view());
    let mut k: usize = 0;
    while k < fields.len()
        invariant
            k <= fields.len(),
            all == fields.deep_view(),
            step == interface_field_step(names@, field_directive@, info.deep_view()),
            names_of(subgraphs@) == names_of(old(subgraphs)@),
            kinds_kept(old(subgraphs)@, subgraphs@),
            grown_for(
                old(subgraphs)@,
                subgraphs@,
                names@,
                info.deep_view().name,
                info.deep_view().owners,
            ),
            members_kept(old(subgraphs)@, subgraphs@),
            fields_placed(
                subgraphs@,
                names@,
                field_directive@,
                info.deep_view(),
                all,
                k as int,
            ),
            all_closed(old(subgraphs)@) ==> all_closed(subgraphs@),
            try_fold(all, k as int, subgraphs@, step) == try_fold(all, 0, old(subgraphs)@, step),
        decreases fields.len() - k,
    {
        let field = &fields[k];
        let apps = field_applications(&field.directives, field_directive)?;
        if apps.len() == 0 {
            let ghost head = subgraphs@;
            let done = implicit_interface_field(field, info, subgraphs, names);
            proof {
                lemma_kinds_kept_chain(old(subgraphs)@, head, subgraphs@);
                lemma_grown_chain(
                    old(subgraphs)@,
                    head,
                    subgraphs@,
                    names@,
                    info.deep_view().name,
                    info.deep_view().owners,
                );
            }
            done?;
            proof {
                lemma_fields_placed_next(
                    old(subgraphs)@,
                    head,
                    subgraphs@,
                    names@,
                    field_directive@,
                    info.deep_view(),
                    all,
                    k as int,
                );
            }
        } else {
            let ghost head = subgraphs@;
            let done = explicit_interface_field(field, &apps, info, subgraphs, names);
            proof {
                lemma_kinds_kept_chain(old(subgraphs)@, head, subgraphs@);
                lemma_grown_chain(
                    old(subgraphs)@,
                    head,
                    subgraphs@,
                    names@,
                    info.deep_view().name,
                    info.deep_view().owners,
                );
            }
            done?;
            proof {
                lemma_fields_placed_next(
                    old(subgraphs)@,
                    head,
                    subgraphs@,
                    names@,
                    field_directive@,
                    info.deep_view(),
                    all,
                    k as int,
                );
            }
        }
        k += 1;
    }
    Ok(())
}

/// Populates the interfaces of the records: in each service that owns an
/// interface, as an interface or as an interface object, the interfaces that
/// it implements there and the fields that it has there.
pub fn extract_interface_type_content(
    supergraph: &Schema,
    subgraphs: &mut FederationSubgraphs,
    names: &GraphNames,
    join: &JoinSpec,
    infos: &Vec<TypeInfo>,
) -> (r: Result<(), FederationError>)
    ensures
        outcome(
            r,
            final(subgraphs)@,
            interface_content(supergraph@, join@, names@, old(subgraphs)@, infos.deep_view()),
        ),
        names_of(final(subgraphs)@) == names_of(old(subgraphs)@),
        kinds_kept(old(subgraphs)@, final(subgraphs)@),
        grown_for_records(old(subgraphs)@, final(subgraphs)@, names@, infos.deep_view()),
        r is Ok ==> members_kept(old(subgraphs)@, final(subgraphs)@) && types_placed(
            final(subgraphs)@,
            names@,
            required_directive(supergraph@, join@, "field"@)->Ok_0,
            supergraph@,
            TypeKind::Interface,
            infos.deep_view(),
            infos.len() as int,
        ),
        all_closed(old(subgraphs)@) && r is Ok ==> all_closed(final(subgraphs)@),
{
    let field_directive = join.required_directive(supergraph, "field")?;
    let implements_directive = match join.versioned_directive(supergraph, "implements", 2)? {
        Some(name) => name,
        None => {
            return Err(
                FederationError::invalid_supergraph(
                    String::from_str("@join__implements should exist for a fed2 supergraph"),
                ),
            );
        },
    };
    let ghost all = infos.deep_view();
    let ghost step = interface_type_step(
        supergraph@,
        names@,
        field_directive@,
        implements_directive@,
    );
    let mut k: usize = 0;
    while k < infos.len()
        invariant
            k <= infos.len(),
            all == infos.deep_view(),
            step == interface_type_step(
                supergraph@,
                names@,
                field_directive@,
                implements_directive@,
            ),
            interface_content(supergraph@, join@, names@, old(subgraphs)@, all) == try_fold(
                all,
                0,
                old(subgraphs)@,
                step,
            ),
            names_of(subgraphs@) == names_of(old(subgraphs)@),
            kinds_kept(old(subgraphs)@, subgraphs@),
            grown_for_records(old(subgraphs)@, subgraphs@, names@, infos.deep_view()),
            required_directive(supergraph@, join@, "field"@) is Ok,
            required_directive(supergraph@, join@, "field"@)->Ok_0 == field_directive@,
            members_kept(old(subgraphs)@, subgraphs@),
            types_placed(
                subgraphs@,
                names@,
                field_directive@,
                supergraph@,
                TypeKind::Interface,
                all,
                k as int,
            ),
            all_closed(old(subgraphs)@) ==> all_closed(subgraphs@),
            try_fold(all, k as int, subgraphs@, step) == try_fold(all, 0, old(subgraphs)@, step),
        decreases infos.len() - k,
    {
        let info = &infos[k];
        let at = supergraph.locate(info.name.as_str(), TypeKind::Interface)?;
        let t = &supergraph.types[at];
        let ghost head = subgraphs@;
        let done = interface_implements(
            &t.directives,
            implements_directive.as_str(),
            info,
            subgraphs,
            names,
        );
        proof {
            lemma_kinds_kept_chain(old(subgraphs)@, head, subgraphs@);
            lemma_grown_of_record(head, subgraphs@, names@, infos.deep_view(), k as int);
            lemma_grown_records_chain(
                old(subgraphs)@,
                head,
                subgraphs@,
                names@,
                infos.deep_view(),
            );
        }
        done?;
        proof {
            lemma_members_kept_chain(old(subgraphs)@, head, subgraphs@);
            lemma_types_placed_kept(
                head,
                subgraphs@,
                names@,
                field_directive@,
                supergraph@,
                TypeKind::Interface,
                all,
                k as int,
            );
        }
        let ghost head = subgraphs@;
        let done = interface_fields(&t.fields, field_directive.as_str(), info, subgraphs, names);
        proof {
            lemma_kinds_kept_chain(old(subgraphs)@, head, subgraphs@);
            lemma_grown_of_record(head, subgraphs@, names@, infos.deep_view(), k as int);
            lemma_grown_records_chain(
                old(subgraphs)@,
                head,
                subgraphs@,
                names@,
                infos.deep_view(),
            );
        }
        done?;
        proof {
            lemma_types_placed_next(
                old(subgraphs)@,
                head,
                subgraphs@,
                names@,
                field_directive@,
                supergraph@,
                TypeKind::Interface,
                all,
                k as int,
            );
        }
        k += 1;
    }
    Ok(())
}

} // verus!
