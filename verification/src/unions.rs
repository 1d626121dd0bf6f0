//! The content of union types: which members each service's union has.
use crate::closure::all_closed;
use crate::edits::outcome;
use crate::error::{ErrorView, FederationError, invalid_supergraph};
use crate::join::{JoinSpec, JoinSpecView, TargetArguments, TargetArgumentsView};
use crate::members::{has_member, new_members_of};
use crate::names::{graphql_name, graphql_name_spec};
use crate::ordered::{GraphNames, lookup};
use crate::provenance::{optional_applications, target_applications, target_decoder};
use crate::scaffold::{TypeInfo, TypeInfoView};
use crate::schema::{Schema, SchemaView, TypeKind};
use crate::seqs::try_fold;
use crate::subgraphs::{
    FederationSubgraphs, SubgraphView, edit_at, get_subgraph, lemma_with_schema, names_of, resolve,
};
use crate::supergraph::versioned_directive;
use crate::text::concat5;
use crate::growth::{
    grown_for, grown_for_records, lemma_grown_edit, lemma_grown_of_record,
    lemma_grown_records_chain,
};
use crate::kinds::{
    kinds_kept, lemma_kinds_edit, lemma_kinds_kept_chain, lemma_same_kinds_chain, same_kinds,
};
use crate::ordered::lemma_key_listed;
use crate::placement::{
    assigned_to_targets, fanned_out, fanned_to_owners, lemma_fanned_next, lemma_owner_fanned,
    lemma_target_assigned, lemma_unions_placed_next, members_kept, types_kept, unions_placed,
};
use crate::ownership::lemma_resolve;
use vstd::prelude::*;

verus! {

/// What is said of a member application that names a service which does not
/// own the union.
pub open spec fn msg_member_without_type(name: Seq<char>, graph: Seq<char>) -> Seq<char> {
    "@join__unionMember cannot exist on "@ + name + " for subgraph "@ + graph
        + " without type-level @join__type"@
}

/// One step of giving a union the members that a service can have: a member
/// that the service's schema defines is added, any other passed over.
pub open spec fn fan_out_step(name: Seq<char>) -> spec_fn(SchemaView, Seq<char>) -> Result<
    SchemaView,
    ErrorView,
> {
    |schema: SchemaView, member: Seq<char>|
        if schema.defines(member) {
            schema.insert_member(name, member)
        } else {
            Ok(schema)
        }
}

/// One step of giving a union without member application to its owners: the
/// owner gets every member that its schema defines.
pub open spec fn implicit_union_step(
    names: Seq<(Seq<char>, Seq<char>)>,
    name: Seq<char>,
    members: Seq<Seq<char>>,
) -> spec_fn(Seq<SubgraphView>, (Seq<char>, bool)) -> Result<Seq<SubgraphView>, ErrorView> {
    |subgraphs: Seq<SubgraphView>, owner: (Seq<char>, bool)|
        match resolve(names, subgraphs, owner.0) {
            Err(e) => Err(e),
            Ok(i) => edit_at(
                subgraphs,
                i,
                try_fold(members, 0, subgraphs[i].schema, fan_out_step(name)),
            ),
        }
}

/// One step of giving a union the members that its applications name: the
/// service of the application, which must own the union, gets the member,
/// which the application must write as a name.
pub open spec fn explicit_union_step(
    names: Seq<(Seq<char>, Seq<char>)>,
    info: TypeInfoView,
) -> spec_fn(Seq<SubgraphView>, TargetArgumentsView) -> Result<Seq<SubgraphView>, ErrorView> {
    |subgraphs: Seq<SubgraphView>, app: TargetArgumentsView|
        match resolve(names, subgraphs, app.graph) {
            Err(e) => Err(e),
            Ok(i) => if lookup(info.owners, app.graph).is_none() {
                Err(invalid_supergraph(msg_member_without_type(info.name, app.graph)))
            } else {
                match graphql_name_spec(app.target) {
                    Err(e) => Err(e),
                    Ok(member) => edit_at(
                        subgraphs,
                        i,
                        subgraphs[i].schema.insert_member(info.name, member),
                    ),
                }
            },
        }
}

/// One step of populating unions: the union of the record, which the
/// supergraph must hold, gets its members from its member applications, or,
/// where it has none, from what each owner defines.
pub open spec fn union_type_step(
    supergraph: SchemaView,
    names: Seq<(Seq<char>, Seq<char>)>,
    member_directive: Option<Seq<char>>,
) -> spec_fn(Seq<SubgraphView>, TypeInfoView) -> Result<Seq<SubgraphView>, ErrorView> {
    |subgraphs: Seq<SubgraphView>, info: TypeInfoView|
        match supergraph.locate(info.name, TypeKind::Union) {
            Err(e) => Err(e),
            Ok(at) => match optional_applications(
                supergraph.types[at].directives,
                member_directive,
                target_decoder("member"@),
            ) {
                Err(e) => Err(e),
                Ok(apps) => if apps.len() == 0 {
                    try_fold(
                        info.owners,
                        0,
                        subgraphs,
                        implicit_union_step(names, info.name, supergraph.types[at].members),
                    )
                } else {
                    try_fold(apps, 0, subgraphs, explicit_union_step(names, info))
                },
            },
        }
}

/// The registry after the unions of the records have been populated from
/// `supergraph`.
pub open spec fn union_content(
    supergraph: SchemaView,
    join: JoinSpecView,
    names: Seq<(Seq<char>, Seq<char>)>,
    subgraphs: Seq<SubgraphView>,
    infos: Seq<TypeInfoView>,
) -> Result<Seq<SubgraphView>, ErrorView> {
    match versioned_directive(supergraph, join, "unionMember"@, 3) {
        Err(e) => Err(e),
        Ok(member_directive) => try_fold(
            infos,
            0,
            subgraphs,
            union_type_step(supergraph, names, member_directive),
        ),
    }
}

/// Gives the union `name` of a service's schema those of `members` that the
/// schema defines.
pub fn fan_out_members(schema: &mut Schema, name: &str, members: &Vec<String>) -> (r: Result<
    (),
    FederationError,
>)
    ensures
        outcome(
            r,
            final(schema)@,
            try_fold(members.deep_view(), 0, old(schema)@, fan_out_step(name@)),
        ),
        old(schema)@.closed() && r is Ok ==> final(schema)@.closed(),
        new_members_of(old(schema)@, final(schema)@, name@),
        same_kinds(old(schema)@, final(schema)@),
        r is Ok ==> fanned_out(
            old(schema)@,
            final(schema)@,
            name@,
            members.deep_view(),
            members.len() as int,
        ),
{
    let ghost all = members.deep_view();
    let ghost step = fan_out_step(name@);
    let mut k: usize = 0;
    while k < members.len()
        invariant
            k <= members.len(),
            all == members.deep_view(),
            step == fan_out_step(name@),
            old(schema)@.closed() ==> schema@.closed(),
            new_members_of(old(schema)@, schema@, name@),
            same_kinds(old(schema)@, schema@),
            fanned_out(old(schema)@, schema@, name@, all, k as int),
            try_fold(all, k as int, schema@, step) == try_fold(all, 0, old(schema)@, step),
        decreases members.len() - k,
    {
        if schema.defines(members[k].as_str()) {
            let ghost before = schema@;
            let r = schema.insert_member(name, members[k].as_str());
            proof {
                lemma_same_kinds_chain(old(schema)@, before, schema@);
                assert forall|o: Seq<char>, m: Seq<char>| #[trigger]
                    has_member(schema@, o, m) implies has_member(old(schema)@, o, m) || o
                    == name@ by {
                    if o != name@ {
                        assert(has_member(before, o, m));
                    }
                }
            }
            r?;
            proof {
                lemma_fanned_next(old(schema)@, before, schema@, name@, all, k as int);
            }
        } else {
            proof {
                lemma_fanned_next(old(schema)@, schema@, schema@, name@, all, k as int);
            }
        }
        k += 1;
    }
    Ok(())
}

/// Gives a union without member application to its owners.
fn implicit_union(
    members: &Vec<String>,
    info: &TypeInfo,
    subgraphs: &mut FederationSubgraphs,
    names: &GraphNames,
) -> (r: Result<(), FederationError>)
    ensures
        outcome(
            r,
            final(subgraphs)@,
            try_fold(
                info.deep_view().owners,
                0,
                old(subgraphs)@,
                implicit_union_step(names@, info.deep_view().name, members.deep_view()),
            ),
        ),
        names_of(final(subgraphs)@) == names_of(old(subgraphs)@),
        kinds_kept(old(subgraphs)@, final(subgraphs)@),
        grown_for(
            old(subgraphs)@,
            final(subgraphs)@,
            names@,
            info.deep_view().name,
            info.deep_view().owners,
        ),
        r is Ok ==> members_kept(old(subgraphs)@, final(subgraphs)@) && types_kept(
            old(subgraphs)@,
            final(subgraphs)@,
        ) && fanned_to_owners(
            final(subgraphs)@,
            names@,
            info.deep_view().owners,
            info.deep_view().owners.len() as int,
            info.deep_view().name,
            members.deep_view(),
        ),
        all_closed(old(subgraphs)@) && r is Ok ==> all_closed(final(subgraphs)@),
{
    let count = info.subgraph_info.len();
    let ghost all = info.deep_view().owners;
    let ghost step = implicit_union_step(names@, info.deep_view().name, members.deep_view());
    let mut k: usize = 0;
    while k < count
        invariant
            k <= count,
            count == all.len(),
            all == info.deep_view().owners,
            step == implicit_union_step(names@, info.deep_view().name, members.deep_view()),
            names_of(subgraphs@) == names_of(old(subgraphs)@),
            kinds_kept(old(subgraphs)@, subgraphs@),
            grown_for(
                old(subgraphs)@,
                subgraphs@,
                names@,
                info.deep_view().name,
                info.deep_view().owners,
            ),
            members_kept(old(subgraphs)@, subgraphs@),
            types_kept(old(subgraphs)@, subgraphs@),
            fanned_to_owners(
                subgraphs@,
                names@,
                all,
                k as int,
                info.deep_view().name,
                members.deep_view(),
            ),
            all_closed(old(subgraphs)@) ==> all_closed(subgraphs@),
            try_fold(all, k as int, subgraphs@, step) == try_fold(all, 0, old(subgraphs)@, step),
        decreases count - k,
    {
        let graph = info.subgraph_info.key_at(k);
        let i = get_subgraph(subgraphs, names, graph.as_str())?;
        let ghost before = subgraphs.subgraphs;
        let edited = fan_out_members(
            &mut subgraphs.subgraphs[i].schema,
            info.name.as_str(),
            members,
        );
        proof {
            lemma_with_schema(before, subgraphs.subgraphs, i as int);
            lemma_kinds_edit(
                old(subgraphs)@,
                before.deep_view(),
                i as int,
                subgraphs.subgraphs@[i as int].schema@,
            );
            lemma_resolve(names@, before.deep_view(), graph@);
            lemma_key_listed(info.deep_view().owners, k as int);
            lemma_grown_edit(
                old(subgraphs)@,
                before.deep_view(),
                i as int,
                subgraphs.subgraphs@[i as int].schema@,
                names@,
                info.deep_view().name,
                info.deep_view().owners,
                graph@,
            );
        }
        edited?;
        proof {
            lemma_owner_fanned(
                old(subgraphs)@,
                before.deep_view(),
                i as int,
                subgraphs.subgraphs@[i as int].schema@,
                names@,
                all,
                k as int,
                info.deep_view().name,
                members.deep_view(),
            );
        }
        k += 1;
    }
    Ok(())
}

/// Gives a union the members that its applications name.
fn explicit_union(
    apps: &Vec<TargetArguments>,
    info: &TypeInfo,
    subgraphs: &mut FederationSubgraphs,
    names: &GraphNames,
) -> (r: Result<(), FederationError>)
    ensures
        outcome(
            r,
            final(subgraphs)@,
            try_fold(
                apps.deep_view(),
                0,
                old(subgraphs)@,
                explicit_union_step(names@, info.deep_view()),
            ),
        ),
        names_of(final(subgraphs)@) == names_of(old(subgraphs)@),
        kinds_kept(old(subgraphs)@, final(subgraphs)@),
        grown_for(
            old(subgraphs)@,
            final(subgraphs)@,
            names@,
            info.deep_view().name,
            info.deep_view().owners,
        ),
        r is Ok ==> members_kept(old(subgraphs)@, final(subgraphs)@) && types_kept(
            old(subgraphs)@,
            final(subgraphs)@,
        ) && assigned_to_targets(
            final(subgraphs)@,
            names@,
            apps.deep_view(),
            apps.len() as int,
            info.deep_view().name,
        ),
        all_closed(old(subgraphs)@) && r is Ok ==> all_closed(final(subgraphs)@),
{
    let ghost all = apps.deep_view();
    let ghost step = explicit_union_step(names@, info.deep_view());
    let mut k: usize = 0;
    while k < apps.len()
        invariant
            k <= apps.len(),
            all == apps.deep_view(),
            step == explicit_union_step(names@, info.deep_view()),
            names_of(subgraphs@) == names_of(old(subgraphs)@),
            kinds_kept(old(subgraphs)@, subgraphs@),
            grown_for(
                old(subgraphs)@,
                subgraphs@,
                names@,
                info.deep_view().name,
                info.deep_view().owners,
            ),
            members_kept(old(subgraphs)@, subgraphs@),
            types_kept(old(subgraphs)@, subgraphs@),
            assigned_to_targets(subgraphs@, names@, all, k as int, info.deep_view().name),
            all_closed(old(subgraphs)@) ==> all_closed(subgraphs@),
            try_fold(all, k as int, subgraphs@, step) == try_fold(all, 0, old(subgraphs)@, step),
        decreases apps.len() - k,
    {
        let app = &apps[k];
        let i = get_subgraph(subgraphs, names, app.graph.as_str())?;
        if !info.subgraph_info.contains_key(app.graph.as_str()) {
            return Err(
                FederationError::invalid_supergraph(
                    concat5(
                        "@join__unionMember cannot exist on ",
                        info.name.as_str(),
                        " for subgraph ",
                        app.graph.as_str(),
                        " without type-level @join__type",
                    ),
                ),
            );
        }
        let member = graphql_name(app.target.as_str())?;
        let ghost before = subgraphs.subgraphs;
        let edited = subgraphs.subgraphs[i].schema.insert_member(
            info.name.as_str(),
            member.as_str(),
        );
        proof {
            lemma_with_schema(before, subgraphs.subgraphs, i as int);
            lemma_kinds_edit(
                old(subgraphs)@,
                before.deep_view(),
                i as int,
                subgraphs.subgraphs@[i as int].schema@,
            );
            lemma_resolve(names@, before.deep_view(), app.graph@);
            lemma_grown_edit(
                old(subgraphs)@,
                before.deep_view(),
                i as int,
                subgraphs.subgraphs@[i as int].schema@,
                names@,
                info.deep_view().name,
                info.deep_view().owners,
                app.graph@,
            );
        }
        edited?;
        proof {
            lemma_target_assigned(
                old(subgraphs)@,
                before.deep_view(),
                i as int,
                subgraphs.subgraphs@[i as int].schema@,
                names@,
                all,
                k as int,
                info.deep_view().name,
            );
        }
        k += 1;
    }
    Ok(())
}

/// Populates the unions of the records: in each service that owns a union,
/// the members that it has there.
pub fn extract_union_type_content(
    supergraph: &Schema,
    subgraphs: &mut FederationSubgraphs,
    names: &GraphNames,
    join: &JoinSpec,
    infos: &Vec<TypeInfo>,
) -> (r: Result<(), FederationError>)
    ensures
        outcome(
            r,
            final(subgraphs)@,
            union_content(supergraph@, join@, names@, old(subgraphs)@, infos.deep_view()),
        ),
        names_of(final(subgraphs)@) == names_of(old(subgraphs)@),
        kinds_kept(old(subgraphs)@, final(subgraphs)@),
        grown_for_records(old(subgraphs)@, final(subgraphs)@, names@, infos.deep_view()),
        r is Ok ==> members_kept(old(subgraphs)@, final(subgraphs)@) && types_kept(
            old(subgraphs)@,
            final(subgraphs)@,
        ) && unions_placed(
            final(subgraphs)@,
            names@,
            versioned_directive(supergraph@, join@, "unionMember"@, 3)->Ok_0,
            supergraph@,
            infos.deep_view(),
            infos.len() as int,
        ),
        all_closed(old(subgraphs)@) && r is Ok ==> all_closed(final(subgraphs)@),
{
    let member_directive = join.versioned_directive(supergraph, "unionMember", 3)?;
    let ghost all = infos.deep_view();
    let ghost step = union_type_step(supergraph@, names@, member_directive.deep_view());
    let mut k: usize = 0;
    while k < infos.len()
        invariant
            k <= infos.len(),
            all == infos.deep_view(),
            step == union_type_step(supergraph@, names@, member_directive.deep_view()),
            union_content(supergraph@, join@, names@, old(subgraphs)@, all) == try_fold(
                all,
                0,
                old(subgraphs)@,
                step,
            ),
            names_of(subgraphs@) == names_of(old(subgraphs)@),
            kinds_kept(old(subgraphs)@, subgraphs@),
            grown_for_records(old(subgraphs)@, subgraphs@, names@, infos.deep_view()),
            versioned_directive(supergraph@, join@, "unionMember"@, 3) is Ok,
            versioned_directive(supergraph@, join@, "unionMember"@, 3)->Ok_0
                == member_directive.deep_view(),
            members_kept(old(subgraphs)@, subgraphs@),
            types_kept(old(subgraphs)@, subgraphs@),
            unions_placed(
                subgraphs@,
                names@,
                member_directive.deep_view(),
                supergraph@,
                all,
                k as int,
            ),
            all_closed(old(subgraphs)@) ==> all_closed(subgraphs@),
            try_fold(all, k as int, subgraphs@, step) == try_fold(all, 0, old(subgraphs)@, step),
        decreases infos.len() - k,
    {
        let info = &infos[k];
        let at = supergraph.locate(info.name.as_str(), TypeKind::Union)?;
        let t = &supergraph.types[at];
        let apps = target_applications(&t.directives, &member_directive, "member")?;
        if apps.len() == 0 {
            let ghost head = subgraphs@;
            let done = implicit_union(&t.members, info, subgraphs, names);
            proof {
                lemma_kinds_kept_chain(old(subgraphs)@, head, subgraphs@);
                lemma_grown_of_record(head, subgraphs@, names@, infos.deep_view(), k as int);
                lemma_grown_records_chain(
                    old(subgraphs)@,
                    head,
                    subgraphs@,
                    names@,
                    infos.deep_view(),
                );
            }
            done?;
            proof {
                lemma_unions_placed_next(
                    old(subgraphs)@,
                    head,
                    subgraphs@,
                    names@,
                    member_directive.deep_view(),
                    supergraph@,
                    all,
                    k as int,
                );
            }
        } else {
            let ghost head = subgraphs@;
            let done = explicit_union(&apps, info, subgraphs, names);
            proof {
                lemma_kinds_kept_chain(old(subgraphs)@, head, subgraphs@);
                lemma_grown_of_record(head, subgraphs@, names@, infos.deep_view(), k as int);
                lemma_grown_records_chain(
                    old(subgraphs)@,
                    head,
                    subgraphs@,
                    names@,
                    infos.deep_view(),
                );
            }
            done?;
            proof {
                lemma_unions_placed_next(
                    old(subgraphs)@,
                    head,
                    subgraphs@,
                    names@,
                    member_directive.deep_view(),
                    supergraph@,
                    all,
                    k as int,
                );
            }
        }
        k += 1;
    }
    Ok(())
}

} // verus!
