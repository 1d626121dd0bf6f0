//! The content of input object types: which input fields each service's
//! input object has.
use crate::closure::all_closed;
use crate::edits::outcome;
use crate::error::{ErrorView, FederationError, invalid_supergraph};
use crate::fields::add_subgraph_input_field;
use crate::join::{FieldArguments, FieldArgumentsView, JoinSpec, JoinSpecView};
use crate::objects::{field_without_type_error, msg_field_without_type};
use crate::ordered::{GraphNames, lookup};
use crate::provenance::{applications, field_applications, field_decoder};
use crate::scaffold::{TypeInfo, TypeInfoView};
use crate::schema::{InputValue, InputValueView, Schema, SchemaView, TypeKind};
use crate::seqs::try_fold;
use crate::subgraphs::{
    FederationSubgraphs, SubgraphView, edit_at, get_subgraph, lemma_with_schema, names_of, resolve,
};
use crate::supergraph::required_directive;
use crate::growth::{
    grown_for, grown_for_records, lemma_grown_chain, lemma_grown_edit, lemma_grown_of_record,
    lemma_grown_records_chain,
};
use crate::kinds::{kinds_kept, lemma_kinds_edit, lemma_kinds_kept_chain};
use crate::ordered::lemma_key_listed;
use crate::placement::{
    assigned_to_named, assigned_to_owners, inputs_placed, lemma_inputs_placed_next,
    lemma_named_assigned,
    lemma_input_types_placed_next, lemma_owner_assigned, members_kept, input_types_placed,
};
use crate::ownership::lemma_resolve;
use vstd::prelude::*;

verus! {

/// One step of giving an input field without application to the owners of
/// its input object.
pub open spec fn implicit_input_step(
    names: Seq<(Seq<char>, Seq<char>)>,
    name: Seq<char>,
    field: InputValueView,
) -> spec_fn(Seq<SubgraphView>, (Seq<char>, bool)) -> Result<Seq<SubgraphView>, ErrorView> {
    |subgraphs: Seq<SubgraphView>, owner: (Seq<char>, bool)|
        match resolve(names, subgraphs, owner.0) {
            Err(e) => Err(e),
            Ok(i) => edit_at(
                subgraphs,
                i,
                subgraphs[i].schema.add_subgraph_input_field(
                    name,
                    field,
                    FieldArgumentsView::none(),
                ),
            ),
        }
}

/// One step of giving an input field to the services that its applications
/// name: an application without service is passed over; one with a service,
/// which must own the input object, gives that service the field.
pub open spec fn explicit_input_step(
    names: Seq<(Seq<char>, Seq<char>)>,
    info: TypeInfoView,
    field: InputValueView,
) -> spec_fn(Seq<SubgraphView>, FieldArgumentsView) -> Result<Seq<SubgraphView>, ErrorView> {
    |subgraphs: Seq<SubgraphView>, app: FieldArgumentsView|
        match app.graph {
            None => Ok(subgraphs),
            Some(graph) => match resolve(names, subgraphs, graph) {
                Err(e) => Err(e),
                Ok(i) => if lookup(info.owners, graph).is_none() {
                    Err(invalid_supergraph(msg_field_without_type(info.name, field.name, graph)))
                } else {
                    edit_at(
                        subgraphs,
                        i,
                        subgraphs[i].schema.add_subgraph_input_field(info.name, field, app),
                    )
                },
            },
        }
}

/// One step of giving an input object its fields: a field without
/// field-level application goes to every owner of the input object, a field
/// with applications to the services that they name.
pub open spec fn input_field_step(
    names: Seq<(Seq<char>, Seq<char>)>,
    field_directive: Seq<char>,
    info: TypeInfoView,
) -> spec_fn(Seq<SubgraphView>, InputValueView) -> Result<Seq<SubgraphView>, ErrorView> {
    |subgraphs: Seq<SubgraphView>, field: InputValueView|
        match applications(field.directives, field_directive, field_decoder()) {
            Err(e) => Err(e),
            Ok(apps) => if apps.len() == 0 {
                try_fold(info.owners, 0, subgraphs, implicit_input_step(names, info.name, field))
            } else {
                try_fold(apps, 0, subgraphs, explicit_input_step(names, info, field))
            },
        }
}

/// One step of populating input objects: the input object of the record,
/// which the supergraph must hold, gets its fields.
pub open spec fn input_type_step(
    supergraph: SchemaView,
    names: Seq<(Seq<char>, Seq<char>)>,
    field_directive: Seq<char>,
) -> spec_fn(Seq<SubgraphView>, TypeInfoView) -> Result<Seq<SubgraphView>, ErrorView> {
    |subgraphs: Seq<SubgraphView>, info: TypeInfoView|
        match supergraph.locate(info.name, TypeKind::InputObject) {
            Err(e) => Err(e),
            Ok(at) => try_fold(
                supergraph.types[at].input_fields,
                0,
                subgraphs,
                input_field_step(names, field_directive, info),
            ),
        }
}

/// The registry after the input objects of the records have been populated
/// from `supergraph`.
pub open spec fn input_content(
    supergraph: SchemaView,
    join: JoinSpecView,
    names: Seq<(Seq<char>, Seq<char>)>,
    subgraphs: Seq<SubgraphView>,
    infos: Seq<TypeInfoView>,
) -> Result<Seq<SubgraphView>, ErrorView> {
    match required_directive(supergraph, join, "field"@) {
        Err(e) => Err(e),
        Ok(field_directive) => try_fold(
            infos,
            0,
            subgraphs,
            input_type_step(supergraph, names, field_directive),
        ),
    }
}

/// Gives an input field without application to every owner of its input
/// object.
fn implicit_input_field(
    field: &InputValue,
    info: &TypeInfo,
    subgraphs: &mut FederationSubgraphs,
    names: &GraphNames,
) -> (r: Result<(), FederationError>)
    ensures
        outcome(
            r,
            final(subgraphs)@,
            try_fold(
                info.deep_view().owners,
                0,
                old(subgraphs)@,
                implicit_input_step(names@, info.deep_view().name, field@),
            ),
        ),
        names_of(final(subgraphs)@) == names_of(old(subgraphs)@),
        kinds_kept(old(subgraphs)@, final(subgraphs)@),
        grown_for(
            old(subgraphs)@,
            final(subgraphs)@,
            names@,
            info.deep_view().name,
            info.deep_view().owners,
        ),
        r is Ok ==> members_kept(old(subgraphs)@, final(subgraphs)@) && assigned_to_owners(
            final(subgraphs)@,
            names@,
            info.deep_view().owners,
            info.deep_view().owners.len() as int,
            info.deep_view().name,
            field@.name,
        ),
        all_closed(old(subgraphs)@) && r is Ok ==> all_closed(final(subgraphs)@),
{
    let count = info.subgraph_info.len();
    let none = FieldArguments::none();
    let ghost all = info.deep_view().owners;
    let ghost step = implicit_input_step(names@, info.deep_view().name, field@);
    let mut k: usize = 0;
    while k < count
        invariant
            k <= count,
            count == all.len(),
            all == info.deep_view().owners,
            none.deep_view() == FieldArgumentsView::none(),
            step == implicit_input_step(names@, info.deep_view().name, field@),
            names_of(subgraphs@) == names_of(old(subgraphs)@),
            kinds_kept(old(subgraphs)@, subgraphs@),
            grown_for(
                old(subgraphs)@,
                subgraphs@,
                names@,
                info.deep_view().name,
                info.deep_view().owners,
            ),
            members_kept(old(subgraphs)@, subgraphs@),
            assigned_to_owners(
                subgraphs@,
                names@,
                all,
                k as int,
                info.deep_view().name,
                field@.name,
            ),
            all_closed(old(subgraphs)@) ==> all_closed(subgraphs@),
            try_fold(all, k as int, subgraphs@, step) == try_fold(all, 0, old(subgraphs)@, step),
        decreases count - k,
    {
        let graph = info.subgraph_info.key_at(k);
        let i = get_subgraph(subgraphs, names, graph.as_str())?;
        let ghost before = subgraphs.subgraphs;
        let edited = add_subgraph_input_field(
            &mut subgraphs.subgraphs[i].schema,
            info.name.as_str(),
            field,
            &none,
        );
        proof {
            lemma_with_schema(before, subgraphs.subgraphs, i as int);
            lemma_kinds_edit(
                old(subgraphs)@,
                before.deep_view(),
                i as int,
                subgraphs.subgraphs@[i as int].schema@,
            );
            lemma_resolve(names@, before.deep_view(), graph@);
            lemma_key_listed(info.deep_view().owners, k as int);
            lemma_grown_edit(
                old(subgraphs)@,
                before.deep_view(),
                i as int,
                subgraphs.subgraphs@[i as int].schema@,
                names@,
                info.deep_view().name,
                info.deep_view().owners,
                graph@,
            );
        }
        edited?;
        proof {
            lemma_owner_assigned(
                old(subgraphs)@,
                before.deep_view(),
                i as int,
                subgraphs.subgraphs@[i as int].schema@,
                names@,
                all,
                k as int,
                info.deep_view().name,
                field@.name,
            );
        }
        k += 1;
    }
    Ok(())
}

/// Gives an input field to the services that its applications name.
fn explicit_input_field(
    field: &InputValue,
    apps: &Vec<FieldArguments>,
    info: &TypeInfo,
    subgraphs: &mut FederationSubgraphs,
    names: &GraphNames,
) -> (r: Result<(), FederationError>)
    ensures
        outcome(
            r,
            final(subgraphs)@,
            try_fold(
                apps.deep_view(),
                0,
                old(subgraphs)@,
                explicit_input_step(names@, info.deep_view(), field@),
            ),
        ),
        names_of(final(subgraphs)@) == names_of(old(subgraphs)@),
        kinds_kept(old(subgraphs)@, final(subgraphs)@),
        grown_for(
            old(subgraphs)@,
            final(subgraphs)@,
            names@,
            info.deep_view().name,
            info.deep_view().owners,
        ),
        r is Ok ==> members_kept(old(subgraphs)@, final(subgraphs)@) && assigned_to_named(
            final(subgraphs)@,
            names@,
            apps.deep_view(),
            apps.len() as int,
            info.deep_view().name,
            field@.name,
        ),
        all_closed(old(subgraphs)@) && r is Ok ==> all_closed(final(subgraphs)@),
{
    let ghost all = apps.deep_view();
    let ghost step = explicit_input_step(names@, info.deep_view(), field@);
    let mut k: usize = 0;
    while k < apps.len()
        invariant
            k <= apps.len(),
            all == apps.deep_view(),
            step == explicit_input_step(names@, info.deep_view(), field@),
            names_of(subgraphs@) == names_of(old(subgraphs)@),
            kinds_kept(old(subgraphs)@, subgraphs@),
            grown_for(
                old(subgraphs)@,
                subgraphs@,
                names@,
                info.deep_view().name,
                info.deep_view().owners,
            ),
            members_kept(old(subgraphs)@, subgraphs@),
            assigned_to_named(
                subgraphs@,
                names@,
                all,
                k as int,
                info.deep_view().name,
                field@.name,
            ),
            all_closed(old(subgraphs)@) ==> all_closed(subgraphs@),
            try_fold(all, k as int, subgraphs@, step) == try_fold(all, 0, old(subgraphs)@, step),
        decreases apps.len() - k,
    {
        if let Some(graph) = &apps[k].graph {
            let i = get_subgraph(subgraphs, names, graph.as_str())?;
            if !info.subgraph_info.contains_key(graph.as_str()) {
                return Err(
                    field_without_type_error(
                        info.name.as_str(),
                        field.name.as_str(),
                        graph.as_str(),
                    ),
                );
            }
            let ghost before = subgraphs.subgraphs;
            let edited = add_subgraph_input_field(
                &mut subgraphs.subgraphs[i].schema,
                info.name.as_str(),
                field,
                &apps[k],
            );
            proof {
                lemma_with_schema(before, subgraphs.subgraphs, i as int);
                lemma_kinds_edit(
                    old(subgraphs)@,
                    before.deep_view(),
                    i as int,
                    subgraphs.subgraphs@[i as int].schema@,
                );
                lemma_resolve(names@, before.deep_view(), graph@);
                lemma_grown_edit(
                    old(subgraphs)@,
                    before.deep_view(),
                    i as int,
                    subgraphs.subgraphs@[i as int].schema@,
                    names@,
                    info.deep_view().name,
                    info.deep_view().owners,
                    graph@,
                );
            }
            edited?;
            proof {
                lemma_named_assigned(
                    old(subgraphs)@,
                    before.deep_view(),
                    i as int,
                    subgraphs.subgraphs@[i as int].schema@,
                    names@,
                    all,
                    k as int,
                    info.deep_view().name,
                    field@.name,
                );
            }
        }
        k += 1;
    }
    Ok(())
}

/// Gives the input object of `info` its fields in each service.
fn input_fields(
    fields: &Vec<InputValue>,
    field_directive: &str,
    info: &TypeInfo,
    subgraphs: &mut FederationSubgraphs,
    names: &GraphNames,
) -> (r: Result<(), FederationError>)
    ensures
        outcome(
            r,
            final(subgraphs)@,
            try_fold(
                fields.deep_view(),
                0,
                old(subgraphs)@,
                input_field_step(names@, field_directive@, info.deep_view()),
            ),
        ),
        names_of(final(subgraphs)@) == names_of(old(subgraphs)@),
        kinds_kept(old(subgraphs)@, final(subgraphs)@),
        grown_for(
            old(subgraphs)@,
            final(subgraphs)@,
            names@,
            info.deep_view().name,
            info.deep_view().owners,
        ),
        r is Ok ==> members_kept(old(subgraphs)@, final(subgraphs)@) && inputs_placed(
            final(subgraphs)@,
            names@,
            field_directive@,
            info.deep_view(),
            fields.deep_view(),
            fields.len() as int,
        ),
        all_closed(old(subgraphs)@) && r is Ok ==> all_closed(final(subgraphs)@),
{
    let ghost all = fields.deep_view();
    let ghost step = input_field_step(names@, field_directive@, info.deep_view());
    let mut k: usize = 0;
    while k < fields.len()
        invariant
            k <= fields.len(),
            all == fields.deep_view(),
            step == input_field_step(names@, field_directive@, info.deep_view()),
            names_of(subgraphs@) == names_of(old(subgraphs)@),
            kinds_kept(old(subgraphs)@, subgraphs@),
            grown_for(
                old(subgraphs)@,
                subgraphs@,
                names@,
                info.deep_view().name,
                info.deep_view().owners,
            ),
            members_kept(old(subgraphs)@, subgraphs@),
            inputs_placed(
                subgraphs@,
                names@,
                field_directive@,
                info.deep_view(),
                all,
                k as int,
            ),
            all_closed(old(subgraphs)@) ==> all_closed(subgraphs@),
            try_fold(all, k as int, subgraphs@, step) == try_fold(all, 0, old(subgraphs)@, step),
        decreases fields.len() - k,
    {
        let field = &fields[k];
        let apps = field_applications(&field.directives, field_directive)?;
        if apps.len() == 0 {
            let ghost head = subgraphs@;
            let done = implicit_input_field(field, info, subgraphs, names);
            proof {
                lemma_kinds_kept_chain(old(subgraphs)@, head, subgraphs@);
                lemma_grown_chain(
                    old(subgraphs)@,
                    head,
                    subgraphs@,
                    names@,
                    info.deep_view().name,
                    info.deep_view().owners,
                );
            }
            done?;
            proof {
                lemma_inputs_placed_next(
                    old(subgraphs)@,
                    head,
                    subgraphs@,
                    names@,
                    field_directive@,
                    info.deep_view(),
                    all,
                    k as int,
                );
            }
        } else {
            let ghost head = subgraphs@;
            let done = explicit_input_field(field, &apps, info, subgraphs, names);
            proof {
                lemma_kinds_kept_chain(old(subgraphs)@, head, subgraphs@);
                lemma_grown_chain(
                    old(subgraphs)@,
                    head,
                    subgraphs@,
                    names@,
                    info.deep_view().name,
                    info.deep_view().owners,
                );
            }
            done?;
            proof {
                lemma_inputs_placed_next(
                    old(subgraphs)@,
                    head,
                    subgraphs@,
                    names@,
                    field_directive@,
                    info.deep_view(),
                    all,
                    k as int,
                );
            }
        }
        k += 1;
    }
    Ok(())
}

/// Populates the input objects of the records: in each service that owns an
/// input object, the fields that it has there.
pub fn extract_input_object_type_content(
    supergraph: &Schema,
    subgraphs: &mut FederationSubgraphs,
    names: &GraphNames,
    join: &JoinSpec,
    infos: &Vec<TypeInfo>,
) -> (r: Result<(), FederationError>)
    ensures
        outcome(
            r,
            final(subgraphs)@,
            input_content(supergraph@, join@, names@, old(subgraphs)@, infos.deep_view()),
        ),
        names_of(final(subgraphs)@) == names_of(old(subgraphs)@),
        kinds_kept(old(subgraphs)@, final(subgraphs)@),
        grown_for_records(old(subgraphs)@, final(subgraphs)@, names@, infos.deep_view()),
        r is Ok ==> members_kept(old(subgraphs)@, final(subgraphs)@) && input_types_placed(
            final(subgraphs)@,
            names@,
            required_directive(supergraph@, join@, "field"@)->Ok_0,
            supergraph@,
            infos.deep_view(),
            infos.len() as int,
        ),
        all_closed(old(subgraphs)@) && r is Ok ==> all_closed(final(subgraphs)@),
{
    let field_directive = join.required_directive(supergraph, "field")?;
    let ghost all = infos.deep_view();
    let ghost step = input_type_step(supergraph@, names@, field_directive@);
    let mut k: usize = 0;
    while k < infos.len()
        invariant
            k <= infos.len(),
            all == infos.deep_view(),
            step == input_type_step(supergraph@, names@, field_directive@),
            input_content(supergraph@, join@, names@, old(subgraphs)@, all) == try_fold(
                all,
                0,
                old(subgraphs)@,
                step,
            ),
            names_of(subgraphs@) == names_of(old(subgraphs)@),
            kinds_kept(old(subgraphs)@, subgraphs@),
            grown_for_records(old(subgraphs)@, subgraphs@, names@, infos.deep_view()),
            required_directive(supergraph@, join@, "field"@) is Ok,
            required_directive(supergraph@, join@, "field"@)->Ok_0 == field_directive@,
            members_kept(old(subgraphs)@, subgraphs@),
            input_types_placed(
                subgraphs@,
                names@,
                field_directive@,
                supergraph@,
                all,
                k as int,
            ),
            all_closed(old(subgraphs)@) ==> all_closed(subgraphs@),
            try_fold(all, k as int, subgraphs@, step) == try_fold(all, 0, old(subgraphs)@, step),
        decreases infos.len() - k,
    {
        let info = &infos[k];
        let at = supergraph.locate(info.name.as_str(), TypeKind::InputObject)?;
        let ghost head = subgraphs@;
        let done = input_fields(
            &supergraph.types[at].input_fields,
            field_directive.as_str(),
            info,
            subgraphs,
            names,
        );
        proof {
            lemma_kinds_kept_chain(old(subgraphs)@, head, subgraphs@);
            lemma_grown_of_record(head, subgraphs@, names@, infos.deep_view(), k as int);
            lemma_grown_records_chain(
                old(subgraphs)@,
                head,
                subgraphs@,
                names@,
                infos.deep_view(),
            );
        }
        done?;
        proof {
            lemma_input_types_placed_next(
                old(subgraphs)@,
                head,
                subgraphs@,
                names@,
                field_directive@,
                supergraph@,
                all,
                k as int,
            );
        }
        k += 1;
    }
    Ok(())
}

} // verus!
