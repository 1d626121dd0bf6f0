//! The content of enum types: which values each service's enum has.
use crate::closure::all_closed;
use crate::edits::outcome;
use crate::error::{ErrorView, FederationError, invalid_supergraph};
use crate::join::{JoinSpec, JoinSpecView};
use crate::ordered::{GraphNames, lookup};
use crate::provenance::{graph_applications, graph_decoder, optional_applications};
use crate::scaffold::{TypeInfo, TypeInfoView};
use crate::schema::{EnumValue, EnumValueView, Schema, SchemaView, TypeKind};
use crate::seqs::try_fold;
use crate::subgraphs::{
    FederationSubgraphs, SubgraphView, edit_at, get_subgraph, lemma_with_schema, names_of, resolve,
};
use crate::supergraph::versioned_directive;
use crate::text::concat7;
use crate::growth::{
    grown_for, grown_for_records, lemma_grown_chain, lemma_grown_edit, lemma_grown_of_record,
    lemma_grown_records_chain,
};
use crate::kinds::{kinds_kept, lemma_kinds_edit, lemma_kinds_kept_chain};
use crate::ordered::lemma_key_listed;
use crate::placement::{
    assigned_to_graphs, assigned_to_owners, enums_placed, lemma_enums_placed_next,
    lemma_graph_assigned, lemma_owner_assigned, lemma_values_placed_next, members_kept,
    values_placed,
};
use crate::ownership::lemma_resolve;
use vstd::prelude::*;

verus! {

/// What is said of a value-level application that names a service which does
/// not own the enum.
pub open spec fn msg_value_without_type(
    name: Seq<char>,
    value: Seq<char>,
    graph: Seq<char>,
) -> Seq<char> {
    "@join__enumValue cannot exist on "@ + name + "."@ + value + " for subgraph "@ + graph
        + " without type-level @join__type"@
}

/// One step of giving a value without application to the owners of its enum.
pub open spec fn implicit_value_step(
    names: Seq<(Seq<char>, Seq<char>)>,
    name: Seq<char>,
    value: Seq<char>,
) -> spec_fn(Seq<SubgraphView>, (Seq<char>, bool)) -> Result<Seq<SubgraphView>, ErrorView> {
    |subgraphs: Seq<SubgraphView>, owner: (Seq<char>, bool)|
        match resolve(names, subgraphs, owner.0) {
            Err(e) => Err(e),
            Ok(i) => edit_at(subgraphs, i, subgraphs[i].schema.insert_enum_value(name, value)),
        }
}

/// One step of giving a value to the services that its applications name:
/// the service, which must own the enum, gets the value.
pub open spec fn explicit_value_step(
    names: Seq<(Seq<char>, Seq<char>)>,
    info: TypeInfoView,
    value: Seq<char>,
) -> spec_fn(Seq<SubgraphView>, Seq<char>) -> Result<Seq<SubgraphView>, ErrorView> {
    |subgraphs: Seq<SubgraphView>, graph: Seq<char>|
        match resolve(names, subgraphs, graph) {
            Err(e) => Err(e),
            Ok(i) => if lookup(info.owners, graph).is_none() {
                Err(invalid_supergraph(msg_value_without_type(info.name, value, graph)))
            } else {
                edit_at(subgraphs, i, subgraphs[i].schema.insert_enum_value(info.name, value))
            },
        }
}

/// One step of giving an enum its values: a value without value-level
/// application goes to every owner of the enum, a value with applications to
/// the services that they name.
pub open spec fn enum_value_step(
    names: Seq<(Seq<char>, Seq<char>)>,
    value_directive: Option<Seq<char>>,
    info: TypeInfoView,
) -> spec_fn(Seq<SubgraphView>, EnumValueView) -> Result<Seq<SubgraphView>, ErrorView> {
    |subgraphs: Seq<SubgraphView>, value: EnumValueView|
        match optional_applications(value.directives, value_directive, graph_decoder()) {
            Err(e) => Err(e),
            Ok(graphs) => if graphs.len() == 0 {
                try_fold(
                    info.owners,
                    0,
                    subgraphs,
                    implicit_value_step(names, info.name, value.name),
                )
            } else {
                try_fold(graphs, 0, subgraphs, explicit_value_step(names, info, value.name))
            },
        }
}

/// One step of populating enums: the enum of the record, which the supergraph
/// must hold, gets its values.
pub open spec fn enum_type_step(
    supergraph: SchemaView,
    names: Seq<(Seq<char>, Seq<char>)>,
    value_directive: Option<Seq<char>>,
) -> spec_fn(Seq<SubgraphView>, TypeInfoView) -> Result<Seq<SubgraphView>, ErrorView> {
    |subgraphs: Seq<SubgraphView>, info: TypeInfoView|
        match supergraph.locate(info.name, TypeKind::Enum) {
            Err(e) => Err(e),
            Ok(at) => try_fold(
                supergraph.types[at].values,
                0,
                subgraphs,
                enum_value_step(names, value_directive, info),
            ),
        }
}

/// The registry after the enums of the records have been populated from
/// `supergraph`.
pub open spec fn enum_content(
    supergraph: SchemaView,
    join: JoinSpecView,
    names: Seq<(Seq<char>, Seq<char>)>,
    subgraphs: Seq<SubgraphView>,
    infos: Seq<TypeInfoView>,
) -> Result<Seq<SubgraphView>, ErrorView> {
    match versioned_directive(supergraph, join, "enumValue"@, 3) {
        Err(e) => Err(e),
        Ok(value_directive) => try_fold(
            infos,
            0,
            subgraphs,
            enum_type_step(supergraph, names, value_directive),
        ),
    }
}

/// Gives a value without application to every owner of its enum.
fn implicit_value(
    value: &str,
    info: &TypeInfo,
    subgraphs: &mut FederationSubgraphs,
    names: &GraphNames,
) -> (r: Result<(), FederationError>)
    ensures
        outcome(
            r,
            final(subgraphs)@,
            try_fold(
                info.deep_view().owners,
                0,
                old(subgraphs)@,
                implicit_value_step(names@, info.deep_view().name, value@),
            ),
        ),
        names_of(final(subgraphs)@) == names_of(old(subgraphs)@),
        kinds_kept(old(subgraphs)@, final(subgraphs)@),
        grown_for(
            old(subgraphs)@,
            final(subgraphs)@,
            names@,
            info.deep_view().name,
            info.deep_view().owners,
        ),
        r is Ok ==> members_kept(old(subgraphs)@, final(subgraphs)@) && assigned_to_owners(
            final(subgraphs)@,
            names@,
            info.deep_view().owners,
            info.deep_view().owners.len() as int,
            info.deep_view().name,
            value@,
        ),
        all_closed(old(subgraphs)@) && r is Ok ==> all_closed(final(subgraphs)@),
{
    let count = info.subgraph_info.len();
    let ghost all = info.deep_view().owners;
    let ghost step = implicit_value_step(names@, info.deep_view().name, value@);
    let mut k: usize = 0;
    while k < count
        invariant
            k <= count,
            count == all.len(),
            all == info.deep_view().owners,
            step == implicit_value_step(names@, info.deep_view().name, value@),
            names_of(subgraphs@) == names_of(old(subgraphs)@),
            kinds_kept(old(subgraphs)@, subgraphs@),
            grown_for(
                old(subgraphs)@,
                subgraphs@,
                names@,
                info.deep_view().name,
                info.deep_view().owners,
            ),
            members_kept(old(subgraphs)@, subgraphs@),
            assigned_to_owners(
                subgraphs@,
                names@,
                all,
                k as int,
                info.deep_view().name,
                value@,
            ),
            all_closed(old(subgraphs)@) ==> all_closed(subgraphs@),
            try_fold(all, k as int, subgraphs@, step) == try_fold(all, 0, old(subgraphs)@, step),
        decreases count - k,
    {
        let graph = info.subgraph_info.key_at(k);
        let i = get_subgraph(subgraphs, names, graph.as_str())?;
        let ghost before = subgraphs.subgraphs;
        let edited = subgraphs.subgraphs[i].schema.insert_enum_value(info.name.as_str(), value);
        proof {
            lemma_with_schema(before, subgraphs.subgraphs, i as int);
            lemma_kinds_edit(
                old(subgraphs)@,
                before.deep_view(),
                i as int,
                subgraphs.subgraphs@[i as int].schema@,
            );
            lemma_resolve(names@, before.deep_view(), graph@);
            lemma_key_listed(info.deep_view().owners, k as int);
            lemma_grown_edit(
                old(subgraphs)@,
                before.deep_view(),
                i as int,
                subgraphs.subgraphs@[i as int].schema@,
                names@,
                info.deep_view().name,
                info.deep_view().owners,
                graph@,
            );
        }
        edited?;
        proof {
            lemma_owner_assigned(
                old(subgraphs)@,
                before.deep_view(),
                i as int,
                subgraphs.subgraphs@[i as int].schema@,
                names@,
                all,
                k as int,
                info.deep_view().name,
                value@,
            );
        }
        k += 1;
    }
    Ok(())
}

/// Gives a value to the services that its applications name.
fn explicit_value(
    value: &str,
    graphs: &Vec<String>,
    info: &TypeInfo,
    subgraphs: &mut FederationSubgraphs,
    names: &GraphNames,
) -> (r: Result<(), FederationError>)
    ensures
        outcome(
            r,
            final(subgraphs)@,
            try_fold(
                graphs.deep_view(),
                0,
                old(subgraphs)@,
                explicit_value_step(names@, info.deep_view(), value@),
            ),
        ),
        names_of(final(subgraphs)@) == names_of(old(subgraphs)@),
        kinds_kept(old(subgraphs)@, final(subgraphs)@),
        grown_for(
            old(subgraphs)@,
            final(subgraphs)@,
            names@,
            info.deep_view().name,
            info.deep_view().owners,
        ),
        r is Ok ==> members_kept(old(subgraphs)@, final(subgraphs)@) && assigned_to_graphs(
            final(subgraphs)@,
            names@,
            graphs.deep_view(),
            graphs.len() as int,
            info.deep_view().name,
            value@,
        ),
        all_closed(old(subgraphs)@) && r is Ok ==> all_closed(final(subgraphs)@),
{
    let ghost all = graphs.deep_view();
    let ghost step = explicit_value_step(names@, info.deep_view(), value@);
    let mut k: usize = 0;
    while k < graphs.len()
        invariant
            k <= graphs.len(),
            all == graphs.deep_view(),
            step == explicit_value_step(names@, info.deep_view(), value@),
            names_of(subgraphs@) == names_of(old(subgraphs)@),
            kinds_kept(old(subgraphs)@, subgraphs@),
            grown_for(
                old(subgraphs)@,
                subgraphs@,
                names@,
                info.deep_view().name,
                info.deep_view().owners,
            ),
            members_kept(old(subgraphs)@, subgraphs@),
            assigned_to_graphs(
                subgraphs@,
                names@,
                all,
                k as int,
                info.deep_view().name,
                value@,
            ),
            all_closed(old(subgraphs)@) ==> all_closed(subgraphs@),
            try_fold(all, k as int, subgraphs@, step) == try_fold(all, 0, old(subgraphs)@, step),
        decreases graphs.len() - k,
    {
        let graph = &graphs[k];
        let i = get_subgraph(subgraphs, names, graph.as_str())?;
        if !info.subgraph_info.contains_key(graph.as_str()) {
            return Err(
                FederationError::invalid_supergraph(
                    concat7(
                        "@join__enumValue cannot exist on ",
                        info.name.as_str(),
                        ".",
                        value,
                        " for subgraph ",
                        graph.as_str(),
                        " without type-level @join__type",
                    ),
                ),
            );
        }
        let ghost before = subgraphs.subgraphs;
        let edited = subgraphs.subgraphs[i].schema.insert_enum_value(info.name.as_str(), value);
        proof {
            lemma_with_schema(before, subgraphs.subgraphs, i as int);
            lemma_kinds_edit(
                old(subgraphs)@,
                before.deep_view(),
                i as int,
                subgraphs.subgraphs@[i as int].schema@,
            );
            lemma_resolve(names@, before.deep_view(), graph@);
            lemma_grown_edit(
                old(subgraphs)@,
                before.deep_view(),
                i as int,
                subgraphs.subgraphs@[i as int].schema@,
                names@,
                info.deep_view().name,
                info.deep_view().owners,
                graph@,
            );
        }
        edited?;
        proof {
            lemma_graph_assigned(
                old(subgraphs)@,
                before.deep_view(),
                i as int,
                subgraphs.subgraphs@[i as int].schema@,
                names@,
                all,
                k as int,
                info.deep_view().name,
                value@,
            );
        }
        k += 1;
    }
    Ok(())
}

/// Gives the enum of `info` its values in each service.
fn enum_values(
    values: &Vec<EnumValue>,
    value_directive: &Option<String>,
    info: &TypeInfo,
    subgraphs: &mut FederationSubgraphs,
    names: &GraphNames,
) -> (r: Result<(), FederationError>)
    ensures
        outcome(
            r,
            final(subgraphs)@,
            try_fold(
                values.deep_view(),
                0,
                old(subgraphs)@,
                enum_value_step(names@, value_directive.deep_view(), info.deep_view()),
            ),
        ),
        names_of(final(subgraphs)@) == names_of(old(subgraphs)@),
        kinds_kept(old(subgraphs)@, final(subgraphs)@),
        grown_for(
            old(subgraphs)@,
            final(subgraphs)@,
            names@,
            info.deep_view().name,
            info.deep_view().owners,
        ),
        r is Ok ==> members_kept(old(subgraphs)@, final(subgraphs)@) && values_placed(
            final(subgraphs)@,
            names@,
            value_directive.deep_view(),
            info.deep_view(),
            values.deep_view(),
            values.len() as int,
        ),
        all_closed(old(subgraphs)@) && r is Ok ==> all_closed(final(subgraphs)@),
{
    let ghost all = values.deep_view();
    let ghost step = enum_value_step(names@, value_directive.deep_view(), info.deep_view());
    let mut k: usize = 0;
    while k < values.len()
        invariant
            k <= values.len(),
            all == values.deep_view(),
            step == enum_value_step(names@, value_directive.deep_view(), info.deep_view()),
            names_of(subgraphs@) == names_of(old(subgraphs)@),
            kinds_kept(old(subgraphs)@, subgraphs@),
            grown_for(
                old(subgraphs)@,
                subgraphs@,
                names@,
                info.deep_view().name,
                info.deep_view().owners,
            ),
            members_kept(old(subgraphs)@, subgraphs@),
            values_placed(
                subgraphs@,
                names@,
                value_directive.deep_view(),
                info.deep_view(),
                all,
                k as int,
            ),
            all_closed(old(subgraphs)@) ==> all_closed(subgraphs@),
            try_fold(all, k as int, subgraphs@, step) == try_fold(all, 0, old(subgraphs)@, step),
        decreases values.len() - k,
    {
        let value = &values[k];
        let graphs = graph_applications(&value.directives, value_directive)?;
        if graphs.len() == 0 {
            let ghost head = subgraphs@;
            let done = implicit_value(value.name.as_str(), info, subgraphs, names);
            proof {
                lemma_kinds_kept_chain(old(subgraphs)@, head, subgraphs@);
                lemma_grown_chain(
                    old(subgraphs)@,
                    head,
                    subgraphs@,
                    names@,
                    info.deep_view().name,
                    info.deep_view().owners,
                );
            }
            done?;
            proof {
                lemma_values_placed_next(
                    old(subgraphs)@,
                    head,
                    subgraphs@,
                    names@,
                    value_directive.deep_view(),
                    info.deep_view(),
                    all,
                    k as int,
                );
            }
        } else {
            let ghost head = subgraphs@;
            let done = explicit_value(value.name.as_str(), &graphs, info, subgraphs, names);
            proof {
                lemma_kinds_kept_chain(old(subgraphs)@, head, subgraphs@);
                lemma_grown_chain(
                    old(subgraphs)@,
                    head,
                    subgraphs@,
                    names@,
                    info.deep_view().name,
                    info.deep_view().owners,
                );
            }
            done?;
            proof {
                lemma_values_placed_next(
                    old(subgraphs)@,
                    head,
                    subgraphs@,
                    names@,
                    value_directive.deep_view(),
                    info.deep_view(),
                    all,
                    k as int,
                );
            }
        }
        k += 1;
    }
    Ok(())
}

/// Populates the enums of the records: in each service that owns an enum,
/// the values that it has there.
pub fn extract_enum_type_content(
    supergraph: &Schema,
    subgraphs: &mut FederationSubgraphs,
    names: &GraphNames,
    join: &JoinSpec,
    infos: &Vec<TypeInfo>,
) -> (r: Result<(), FederationError>)
    ensures
        outcome(
            r,
            final(subgraphs)@,
            enum_content(supergraph@, join@, names@, old(subgraphs)@, infos.deep_view()),
        ),
        names_of(final(subgraphs)@) == names_of(old(subgraphs)@),
        kinds_kept(old(subgraphs)@, final(subgraphs)@),
        grown_for_records(old(subgraphs)@, final(subgraphs)@, names@, infos.deep_view()),
        r is Ok ==> members_kept(old(subgraphs)@, final(subgraphs)@) && enums_placed(
            final(subgraphs)@,
            names@,
            versioned_directive(supergraph@, join@, "enumValue"@, 3)->Ok_0,
            supergraph@,
            infos.deep_view(),
            infos.len() as int,
        ),
        all_closed(old(subgraphs)@) && r is Ok ==> all_closed(final(subgraphs)@),
{
    let value_directive = join.versioned_directive(supergraph, "enumValue", 3)?;
    let ghost all = infos.deep_view();
    let ghost step = enum_type_step(supergraph@, names@, value_directive.deep_view());
    let mut k: usize = 0;
    while k < infos.len()
        invariant
            k <= infos.len(),
            all == infos.deep_view(),
            step == enum_type_step(supergraph@, names@, value_directive.deep_view()),
            enum_content(supergraph@, join@, names@, old(subgraphs)@, all) == try_fold(
                all,
                0,
                old(subgraphs)@,
                step,
            ),
            names_of(subgraphs@) == names_of(old(subgraphs)@),
            kinds_kept(old(subgraphs)@, subgraphs@),
            grown_for_records(old(subgraphs)@, subgraphs@, names@, infos.deep_view()),
            versioned_directive(supergraph@, join@, "enumValue"@, 3) is Ok,
            versioned_directive(supergraph@, join@, "enumValue"@, 3)->Ok_0
                == value_directive.deep_view(),
            members_kept(old(subgraphs)@, subgraphs@),
            enums_placed(
                subgraphs@,
                names@,
                value_directive.deep_view(),
                supergraph@,
                all,
                k as int,
            ),
            all_closed(old(subgraphs)@) ==> all_closed(subgraphs@),
            try_fold(all, k as int, subgraphs@, step) == try_fold(all, 0, old(subgraphs)@, step),
        decreases infos.len() - k,
    {
        let info = &infos[k];
        let at = supergraph.locate(info.name.as_str(), TypeKind::Enum)?;
        let ghost head = subgraphs@;
        let done = enum_values(
            &supergraph.types[at].values,
            &value_directive,
            info,
            subgraphs,
            names,
        );
        proof {
            lemma_kinds_kept_chain(old(subgraphs)@, head, subgraphs@);
            lemma_grown_of_record(head, subgraphs@, names@, infos.deep_view(), k as int);
            lemma_grown_records_chain(
                old(subgraphs)@,
                head,
                subgraphs@,
                names@,
                infos.deep_view(),
            );
        }
        done?;
        proof {
            lemma_enums_placed_next(
                old(subgraphs)@,
                head,
                subgraphs@,
                names@,
                value_directive.deep_view(),
                supergraph@,
                all,
                k as int,
            );
        }
        k += 1;
    }
    Ok(())
}

} // verus!
