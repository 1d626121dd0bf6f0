//! What the population of the types owes to the services when it succeeds:
//! each field, input field or value of a type is a member of the type in the
//! schema of every service that the rules give it to, that is every owner of
//! the type where the member has no application of its own, and every service
//! that one of its applications names where it has some. A union without
//! member application has in each owner those of its members that the owner's
//! schema defines; one with member applications has in each service the
//! members that the applications give it.
use crate::closure::lemma_same_names_define;
use crate::join::{FieldArgumentsView, JoinSpecView, TargetArgumentsView};
use crate::kinds::{kinds_kept, same_kinds};
use crate::members::{has_member, no_new_member, placed, same_defined};
use crate::names::graphql_name_spec;
use crate::ordered::lookup;
use crate::provenance::{
    applications, field_decoder, graph_decoder, optional_applications, target_decoder,
};
use crate::scaffold::{TypeInfoView, TypeInfosView};
use crate::schema::{
    DirectiveView, EnumValueView, FieldView, InputValueView, SchemaView, TypeKind,
};
use crate::subgraphs::{with_schema, SubgraphView};
use crate::supergraph::{required_directive, versioned_directive};
use vstd::prelude::*;

verus! {

/// Whether `after` holds the services of `before`, under their names, each
/// with every member that it had.
pub open spec fn members_kept(before: Seq<SubgraphView>, after: Seq<SubgraphView>) -> bool {
    &&& after.len() == before.len()
    &&& forall|i: int|
        0 <= i < before.len() ==> (#[trigger] after[i]).name == before[i].name && no_new_member(
            after[i].schema,
            before[i].schema,
        )
}

/// Whether the service that the value `graph` of the graph enumeration
/// stands for has the member `member` of the type `owner`.
pub open spec fn assigned(
    registry: Seq<SubgraphView>,
    names: Seq<(Seq<char>, Seq<char>)>,
    graph: Seq<char>,
    owner: Seq<char>,
    member: Seq<char>,
) -> bool {
    exists|i: int|
        0 <= i < registry.len() && lookup(names, graph) == Some((#[trigger] registry[i]).name)
            && has_member(registry[i].schema, owner, member)
}

/// Whether the services of the first `upto` owners have the member.
pub open spec fn assigned_to_owners(
    registry: Seq<SubgraphView>,
    names: Seq<(Seq<char>, Seq<char>)>,
    owners: Seq<(Seq<char>, bool)>,
    upto: int,
    owner: Seq<char>,
    member: Seq<char>,
) -> bool {
    forall|k: int|
        0 <= k < upto ==> assigned(registry, names, (#[trigger] owners[k]).0, owner, member)
}

/// Whether the services that the first `upto` applications name have the
/// member.
pub open spec fn assigned_to_named(
    registry: Seq<SubgraphView>,
    names: Seq<(Seq<char>, Seq<char>)>,
    apps: Seq<FieldArgumentsView>,
    upto: int,
    owner: Seq<char>,
    member: Seq<char>,
) -> bool {
    forall|k: int|
        0 <= k < upto ==> match (#[trigger] apps[k]).graph {
            Some(graph) => assigned(registry, names, graph, owner, member),
            None => true,
        }
}

/// Whether a field or input field of the type of `info`, named `member` and
/// with the directives `directives`, is where the rules give it: in every
/// owner of the type where it has no application of `directive`, and in every
/// service that an application names where it has some.
pub open spec fn member_placed(
    registry: Seq<SubgraphView>,
    names: Seq<(Seq<char>, Seq<char>)>,
    directive: Seq<char>,
    info: TypeInfoView,
    directives: Seq<DirectiveView>,
    member: Seq<char>,
) -> bool {
    match applications(directives, directive, field_decoder()) {
        Ok(apps) => if apps.len() == 0 {
            assigned_to_owners(
                registry,
                names,
                info.owners,
                info.owners.len() as int,
                info.name,
                member,
            )
        } else {
            assigned_to_named(registry, names, apps, apps.len() as int, info.name, member)
        },
        Err(_) => true,
    }
}

/// Whether the first `upto` fields are where the rules give them.
pub open spec fn fields_placed(
    registry: Seq<SubgraphView>,
    names: Seq<(Seq<char>, Seq<char>)>,
    directive: Seq<char>,
    info: TypeInfoView,
    fields: Seq<FieldView>,
    upto: int,
) -> bool {
    forall|j: int|
        0 <= j < upto ==> member_placed(
            registry,
            names,
            directive,
            info,
            (#[trigger] fields[j]).directives,
            fields[j].name,
        )
}

/// Whether the first `upto` input fields are where the rules give them.
pub open spec fn inputs_placed(
    registry: Seq<SubgraphView>,
    names: Seq<(Seq<char>, Seq<char>)>,
    directive: Seq<char>,
    info: TypeInfoView,
    inputs: Seq<InputValueView>,
    upto: int,
) -> bool {
    forall|j: int|
        0 <= j < upto ==> member_placed(
            registry,
            names,
            directive,
            info,
            (#[trigger] inputs[j]).directives,
            inputs[j].name,
        )
}

/// Whether the fields of the type of `info`, which the supergraph has with
/// the kind `kind`, are where the rules give them.
pub open spec fn type_placed(
    registry: Seq<SubgraphView>,
    names: Seq<(Seq<char>, Seq<char>)>,
    directive: Seq<char>,
    supergraph: SchemaView,
    kind: TypeKind,
    info: TypeInfoView,
) -> bool {
    match supergraph.locate(info.name, kind) {
        Ok(at) => fields_placed(
            registry,
            names,
            directive,
            info,
            supergraph.types[at].fields,
            supergraph.types[at].fields.len() as int,
        ),
        Err(_) => true,
    }
}

/// Whether the fields of the types of the first `upto` records, which the
/// supergraph has with the kind `kind`, are where the rules give them.
pub open spec fn types_placed(
    registry: Seq<SubgraphView>,
    names: Seq<(Seq<char>, Seq<char>)>,
    directive: Seq<char>,
    supergraph: SchemaView,
    kind: TypeKind,
    infos: Seq<TypeInfoView>,
    upto: int,
) -> bool {
    forall|k: int|
        0 <= k < upto ==> type_placed(
            registry,
            names,
            directive,
            supergraph,
            kind,
            #[trigger] infos[k],
        )
}

/// Whether the input fields of the input object of `info`, as the supergraph
/// has it, are where the rules give them.
pub open spec fn input_type_placed(
    registry: Seq<SubgraphView>,
    names: Seq<(Seq<char>, Seq<char>)>,
    directive: Seq<char>,
    supergraph: SchemaView,
    info: TypeInfoView,
) -> bool {
    match supergraph.locate(info.name, TypeKind::InputObject) {
        Ok(at) => inputs_placed(
            registry,
            names,
            directive,
            info,
            supergraph.types[at].input_fields,
            supergraph.types[at].input_fields.len() as int,
        ),
        Err(_) => true,
    }
}

/// Whether the input fields of the input objects of the first `upto` records
/// are where the rules give them.
pub open spec fn input_types_placed(
    registry: Seq<SubgraphView>,
    names: Seq<(Seq<char>, Seq<char>)>,
    directive: Seq<char>,
    supergraph: SchemaView,
    infos: Seq<TypeInfoView>,
    upto: int,
) -> bool {
    forall|k: int|
        0 <= k < upto ==> input_type_placed(
            registry,
            names,
            directive,
            supergraph,
            #[trigger] infos[k],
        )
}

/// Whether the services that the first `upto` values of the graph enumeration
/// stand for have the member.
pub open spec fn assigned_to_graphs(
    registry: Seq<SubgraphView>,
    names: Seq<(Seq<char>, Seq<char>)>,
    graphs: Seq<Seq<char>>,
    upto: int,
    owner: Seq<char>,
    member: Seq<char>,
) -> bool {
    forall|k: int| 0 <= k < upto ==> assigned(registry, names, #[trigger] graphs[k], owner, member)
}

/// Whether the value of the enum of `info` is where the rules give it: in
/// every owner of the enum where the value has no application of
/// `directive`, and in every service that an application names where it has
/// some.
pub open spec fn value_placed(
    registry: Seq<SubgraphView>,
    names: Seq<(Seq<char>, Seq<char>)>,
    directive: Option<Seq<char>>,
    info: TypeInfoView,
    value: EnumValueView,
) -> bool {
    match optional_applications(value.directives, directive, graph_decoder()) {
        Ok(graphs) => if graphs.len() == 0 {
            assigned_to_owners(
                registry,
                names,
                info.owners,
                info.owners.len() as int,
                info.name,
                value.name,
            )
        } else {
            assigned_to_graphs(registry, names, graphs, graphs.len() as int, info.name, value.name)
        },
        Err(_) => true,
    }
}

/// Whether the first `upto` values are where the rules give them.
pub open spec fn values_placed(
    registry: Seq<SubgraphView>,
    names: Seq<(Seq<char>, Seq<char>)>,
    directive: Option<Seq<char>>,
    info: TypeInfoView,
    values: Seq<EnumValueView>,
    upto: int,
) -> bool {
    forall|j: int|
        0 <= j < upto ==> value_placed(registry, names, directive, info, #[trigger] values[j])
}

/// Whether the values of the enum of `info`, as the supergraph has it, are
/// where the rules give them.
pub open spec fn enum_placed(
    registry: Seq<SubgraphView>,
    names: Seq<(Seq<char>, Seq<char>)>,
    directive: Option<Seq<char>>,
    supergraph: SchemaView,
    info: TypeInfoView,
) -> bool {
    match supergraph.locate(info.name, TypeKind::Enum) {
        Ok(at) => values_placed(
            registry,
            names,
            directive,
            info,
            supergraph.types[at].values,
            supergraph.types[at].values.len() as int,
        ),
        Err(_) => true,
    }
}

/// Whether the values of the enums of the first `upto` records are where the
/// rules give them.
pub open spec fn enums_placed(
    registry: Seq<SubgraphView>,
    names: Seq<(Seq<char>, Seq<char>)>,
    directive: Option<Seq<char>>,
    supergraph: SchemaView,
    infos: Seq<TypeInfoView>,
    upto: int,
) -> bool {
    forall|k: int|
        0 <= k < upto ==> enum_placed(registry, names, directive, supergraph, #[trigger] infos[k])
}

/// Whether `after` holds the services of `before`, each with a schema that
/// defines the same names.
pub open spec fn types_kept(before: Seq<SubgraphView>, after: Seq<SubgraphView>) -> bool {
    &&& after.len() == before.len()
    &&& forall|i: int|
        0 <= i < before.len() ==> same_defined(before[i].schema, (#[trigger] after[i]).schema)
}

/// Whether `after` has every member that `before` has, defines the same
/// names, and has each of the first `upto` of `members` that it defines as a
/// member of `owner`.
pub open spec fn fanned_out(
    before: SchemaView,
    after: SchemaView,
    owner: Seq<char>,
    members: Seq<Seq<char>>,
    upto: int,
) -> bool {
    &&& no_new_member(after, before)
    &&& same_defined(before, after)
    &&& forall|m: int|
        0 <= m < upto && after.defines(#[trigger] members[m]) ==> has_member(
            after,
            owner,
            members[m],
        )
}

/// Whether the service that the value `graph` of the graph enumeration
/// stands for has the member `member` of the type `owner`, where its schema
/// defines a type named `member`.
pub open spec fn assigned_where_defined(
    registry: Seq<SubgraphView>,
    names: Seq<(Seq<char>, Seq<char>)>,
    graph: Seq<char>,
    owner: Seq<char>,
    member: Seq<char>,
) -> bool {
    exists|i: int|
        0 <= i < registry.len() && lookup(names, graph) == Some((#[trigger] registry[i]).name) && (
        registry[i].schema.defines(member) ==> has_member(registry[i].schema, owner, member))
}

/// Whether the services of the first `upto` owners have each of `members`
/// that their schema defines.
pub open spec fn fanned_to_owners(
    registry: Seq<SubgraphView>,
    names: Seq<(Seq<char>, Seq<char>)>,
    owners: Seq<(Seq<char>, bool)>,
    upto: int,
    owner: Seq<char>,
    members: Seq<Seq<char>>,
) -> bool {
    forall|k: int, m: int|
        0 <= k < upto && 0 <= m < members.len() ==> assigned_where_defined(
            registry,
            names,
            (#[trigger] owners[k]).0,
            owner,
            #[trigger] members[m],
        )
}

/// Whether the services that the first `upto` member applications name have
/// the member that the application names.
pub open spec fn assigned_to_targets(
    registry: Seq<SubgraphView>,
    names: Seq<(Seq<char>, Seq<char>)>,
    apps: Seq<TargetArgumentsView>,
    upto: int,
    owner: Seq<char>,
) -> bool {
    forall|k: int|
        0 <= k < upto ==> match graphql_name_spec((#[trigger] apps[k]).target) {
            Ok(member) => assigned(registry, names, apps[k].graph, owner, member),
            Err(_) => true,
        }
}

/// Whether the union of `info`, as the supergraph has it, has its members
/// where the rules give them: where it has no application of `directive`,
/// each owner has those of its members that the owner's schema defines;
/// where it has some, each service that an application names has the member
/// that the application names.
pub open spec fn union_placed(
    registry: Seq<SubgraphView>,
    names: Seq<(Seq<char>, Seq<char>)>,
    directive: Option<Seq<char>>,
    supergraph: SchemaView,
    info: TypeInfoView,
) -> bool {
    match supergraph.locate(info.name, TypeKind::Union) {
        Ok(at) => match optional_applications(
            supergraph.types[at].directives,
            directive,
            target_decoder("member"@),
        ) {
            Ok(apps) => if apps.len() == 0 {
                fanned_to_owners(
                    registry,
                    names,
                    info.owners,
                    info.owners.len() as int,
                    info.name,
                    supergraph.types[at].members,
                )
            } else {
                assigned_to_targets(registry, names, apps, apps.len() as int, info.name)
            },
            Err(_) => true,
        },
        Err(_) => true,
    }
}

/// Whether the unions of the first `upto` records have their members where
/// the rules give them.
pub open spec fn unions_placed(
    registry: Seq<SubgraphView>,
    names: Seq<(Seq<char>, Seq<char>)>,
    directive: Option<Seq<char>>,
    supergraph: SchemaView,
    infos: Seq<TypeInfoView>,
    upto: int,
) -> bool {
    forall|k: int|
        0 <= k < upto ==> union_placed(registry, names, directive, supergraph, #[trigger] infos[k])
}

/// Chained, "members kept" stays "members kept".
pub proof fn lemma_members_kept_chain(
    a: Seq<SubgraphView>,
    b: Seq<SubgraphView>,
    c: Seq<SubgraphView>,
)
    requires
        members_kept(a, b),
        members_kept(b, c),
    ensures
        members_kept(a, c),
{
    assert forall|i: int| 0 <= i < a.len() implies (#[trigger] c[i]).name == a[i].name
        && no_new_member(c[i].schema, a[i].schema) by {
        assert(b[i].name == a[i].name);
        assert forall|o: Seq<char>, m: Seq<char>| #[trigger]
            has_member(a[i].schema, o, m) implies has_member(c[i].schema, o, m) by {
            assert(has_member(b[i].schema, o, m));
        }
    }
}

/// A registry in which the schema of one service lost no member has kept the
/// members.
pub proof fn lemma_kept_edit(
    start: Seq<SubgraphView>,
    s: Seq<SubgraphView>,
    i: int,
    schema: SchemaView,
)
    requires
        members_kept(start, s),
        0 <= i < s.len(),
        no_new_member(schema, s[i].schema),
    ensures
        members_kept(start, with_schema(s, i, schema)),
{
    let after = with_schema(s, i, schema);
    assert(members_kept(s, after)) by {
        assert forall|j: int| 0 <= j < s.len() implies (#[trigger] after[j]).name == s[j].name
            && no_new_member(after[j].schema, s[j].schema) by {}
    }
    lemma_members_kept_chain(start, s, after);
}

/// A service that has a member has it where the members are kept.
pub proof fn lemma_assigned_kept(
    a: Seq<SubgraphView>,
    b: Seq<SubgraphView>,
    names: Seq<(Seq<char>, Seq<char>)>,
    graph: Seq<char>,
    owner: Seq<char>,
    member: Seq<char>,
)
    requires
        members_kept(a, b),
        assigned(a, names, graph, owner, member),
    ensures
        assigned(b, names, graph, owner, member),
{
    let i = choose|i: int|
        0 <= i < a.len() && lookup(names, graph) == Some((#[trigger] a[i]).name) && has_member(
            a[i].schema,
            owner,
            member,
        );
    assert(b[i].name == a[i].name);
    assert(has_member(b[i].schema, owner, member));
}

/// A registry in which the service of the next owner got the member, and no
/// service lost one, has the member in the services of the owners up to the
/// next.
pub proof fn lemma_owner_assigned(
    start: Seq<SubgraphView>,
    s: Seq<SubgraphView>,
    i: int,
    schema: SchemaView,
    names: Seq<(Seq<char>, Seq<char>)>,
    owners: Seq<(Seq<char>, bool)>,
    k: int,
    owner: Seq<char>,
    member: Seq<char>,
)
    requires
        members_kept(start, s),
        assigned_to_owners(s, names, owners, k, owner, member),
        0 <= k < owners.len(),
        0 <= i < s.len(),
        lookup(names, owners[k].0) == Some(s[i].name),
        placed(s[i].schema, schema, owner, member),
    ensures
        members_kept(start, with_schema(s, i, schema)),
        assigned_to_owners(with_schema(s, i, schema), names, owners, k + 1, owner, member),
{
    let after = with_schema(s, i, schema);
    lemma_kept_edit(s, s, i, schema);
    lemma_kept_edit(start, s, i, schema);
    assert forall|j: int| 0 <= j < k + 1 implies assigned(
        after,
        names,
        (#[trigger] owners[j]).0,
        owner,
        member,
    ) by {
        if j < k {
            lemma_assigned_kept(s, after, names, owners[j].0, owner, member);
        } else {
            assert(after[i].name == s[i].name && has_member(after[i].schema, owner, member));
        }
    }
}

/// A registry in which the service that the next application names got the
/// member, and no service lost one, has the member in the services that the
/// applications up to the next name.
pub proof fn lemma_named_assigned(
    start: Seq<SubgraphView>,
    s: Seq<SubgraphView>,
    i: int,
    schema: SchemaView,
    names: Seq<(Seq<char>, Seq<char>)>,
    apps: Seq<FieldArgumentsView>,
    k: int,
    owner: Seq<char>,
    member: Seq<char>,
)
    requires
        members_kept(start, s),
        assigned_to_named(s, names, apps, k, owner, member),
        0 <= k < apps.len(),
        0 <= i < s.len(),
        apps[k].graph matches Some(graph) && lookup(names, graph) == Some(s[i].name),
        placed(s[i].schema, schema, owner, member),
    ensures
        members_kept(start, with_schema(s, i, schema)),
        assigned_to_named(with_schema(s, i, schema), names, apps, k + 1, owner, member),
{
    let after = with_schema(s, i, schema);
    lemma_kept_edit(s, s, i, schema);
    lemma_kept_edit(start, s, i, schema);
    assert forall|j: int| 0 <= j < k + 1 implies match (#[trigger] apps[j]).graph {
        Some(graph) => assigned(after, names, graph, owner, member),
        None => true,
    } by {
        if j < k {
            if let Some(graph) = apps[j].graph {
                lemma_assigned_kept(s, after, names, graph, owner, member);
            }
        } else {
            assert(after[i].name == s[i].name && has_member(after[i].schema, owner, member));
        }
    }
}

/// A member that is where the rules give it is still there where the
/// members are kept.
pub proof fn lemma_member_placed_kept(
    a: Seq<SubgraphView>,
    b: Seq<SubgraphView>,
    names: Seq<(Seq<char>, Seq<char>)>,
    directive: Seq<char>,
    info: TypeInfoView,
    directives: Seq<DirectiveView>,
    member: Seq<char>,
)
    requires
        members_kept(a, b),
        member_placed(a, names, directive, info, directives, member),
    ensures
        member_placed(b, names, directive, info, directives, member),
{
    if let Ok(apps) = applications(directives, directive, field_decoder()) {
        if apps.len() == 0 {
            assert forall|k: int| 0 <= k < info.owners.len() implies assigned(
                b,
                names,
                (#[trigger] info.owners[k]).0,
                info.name,
                member,
            ) by {
                lemma_assigned_kept(a, b, names, info.owners[k].0, info.name, member);
            }
        } else {
            assert forall|k: int| 0 <= k < apps.len() implies match (#[trigger] apps[k]).graph {
                Some(graph) => assigned(b, names, graph, info.name, member),
                None => true,
            } by {
                if let Some(graph) = apps[k].graph {
                    lemma_assigned_kept(a, b, names, graph, info.name, member);
                }
            }
        }
    }
}

/// After the next field has been given to its services, with no member lost,
/// the fields up to the next are where the rules give them.
pub proof fn lemma_fields_placed_next(
    start: Seq<SubgraphView>,
    a: Seq<SubgraphView>,
    b: Seq<SubgraphView>,
    names: Seq<(Seq<char>, Seq<char>)>,
    directive: Seq<char>,
    info: TypeInfoView,
    fields: Seq<FieldView>,
    k: int,
)
    requires
        members_kept(start, a),
        members_kept(a, b),
        fields_placed(a, names, directive, info, fields, k),
        0 <= k < fields.len(),
        member_placed(b, names, directive, info, fields[k].directives, fields[k].name),
    ensures
        members_kept(start, b),
        fields_placed(b, names, directive, info, fields, k + 1),
{
    lemma_members_kept_chain(start, a, b);
    assert forall|j: int| 0 <= j < k + 1 implies member_placed(
        b,
        names,
        directive,
        info,
        (#[trigger] fields[j]).directives,
        fields[j].name,
    ) by {
        if j < k {
            lemma_member_placed_kept(
                a,
                b,
                names,
                directive,
                info,
                fields[j].directives,
                fields[j].name,
            );
        }
    }
}

/// After the next input field has been given to its services, with no member
/// lost, the input fields up to the next are where the rules give them.
pub proof fn lemma_inputs_placed_next(
    start: Seq<SubgraphView>,
    a: Seq<SubgraphView>,
    b: Seq<SubgraphView>,
    names: Seq<(Seq<char>, Seq<char>)>,
    directive: Seq<char>,
    info: TypeInfoView,
    inputs: Seq<InputValueView>,
    k: int,
)
    requires
        members_kept(start, a),
        members_kept(a, b),
        inputs_placed(a, names, directive, info, inputs, k),
        0 <= k < inputs.len(),
        member_placed(b, names, directive, info, inputs[k].directives, inputs[k].name),
    ensures
        members_kept(start, b),
        inputs_placed(b, names, directive, info, inputs, k + 1),
{
    lemma_members_kept_chain(start, a, b);
    assert forall|j: int| 0 <= j < k + 1 implies member_placed(
        b,
        names,
        directive,
        info,
        (#[trigger] inputs[j]).directives,
        inputs[j].name,
    ) by {
        if j < k {
            lemma_member_placed_kept(
                a,
                b,
                names,
                directive,
                info,
                inputs[j].directives,
                inputs[j].name,
            );
        }
    }
}

/// Types whose fields are where the rules give them still have them there
/// where the members are kept.
pub proof fn lemma_types_placed_kept(
    a: Seq<SubgraphView>,
    b: Seq<SubgraphView>,
    names: Seq<(Seq<char>, Seq<char>)>,
    directive: Seq<char>,
    supergraph: SchemaView,
    kind: TypeKind,
    infos: Seq<TypeInfoView>,
    upto: int,
)
    requires
        members_kept(a, b),
        types_placed(a, names, directive, supergraph, kind, infos, upto),
    ensures
        types_placed(b, names, directive, supergraph, kind, infos, upto),
{
    assert forall|k: int| 0 <= k < upto implies type_placed(
        b,
        names,
        directive,
        supergraph,
        kind,
        #[trigger] infos[k],
    ) by {
        assert(type_placed(a, names, directive, supergraph, kind, infos[k]));
        if let Ok(at) = supergraph.locate(infos[k].name, kind) {
            let fields = supergraph.types[at].fields;
            assert forall|j: int| 0 <= j < fields.len() implies member_placed(
                b,
                names,
                directive,
                infos[k],
                (#[trigger] fields[j]).directives,
                fields[j].name,
            ) by {
                lemma_member_placed_kept(
                    a,
                    b,
                    names,
                    directive,
                    infos[k],
                    fields[j].directives,
                    fields[j].name,
                );
            }
        }
    }
}

/// After the type of the next record has been given its fields, with no
/// member lost, the types of the records up to the next have them where the
/// rules give them.
pub proof fn lemma_types_placed_next(
    start: Seq<SubgraphView>,
    a: Seq<SubgraphView>,
    b: Seq<SubgraphView>,
    names: Seq<(Seq<char>, Seq<char>)>,
    directive: Seq<char>,
    supergraph: SchemaView,
    kind: TypeKind,
    infos: Seq<TypeInfoView>,
    k: int,
)
    requires
        members_kept(start, a),
        members_kept(a, b),
        types_placed(a, names, directive, supergraph, kind, infos, k),
        0 <= k < infos.len(),
        type_placed(b, names, directive, supergraph, kind, infos[k]),
    ensures
        members_kept(start, b),
        types_placed(b, names, directive, supergraph, kind, infos, k + 1),
{
    lemma_members_kept_chain(start, a, b);
    lemma_types_placed_kept(a, b, names, directive, supergraph, kind, infos, k);
}

/// After the input object of the next record has been given its input
/// fields, with no member lost, the input objects of the records up to the
/// next have them where the rules give them.
pub proof fn lemma_input_types_placed_next(
    start: Seq<SubgraphView>,
    a: Seq<SubgraphView>,
    b: Seq<SubgraphView>,
    names: Seq<(Seq<char>, Seq<char>)>,
    directive: Seq<char>,
    supergraph: SchemaView,
    infos: Seq<TypeInfoView>,
    k: int,
)
    requires
        members_kept(start, a),
        members_kept(a, b),
        input_types_placed(a, names, directive, supergraph, infos, k),
        0 <= k < infos.len(),
        input_type_placed(b, names, directive, supergraph, infos[k]),
    ensures
        members_kept(start, b),
        input_types_placed(b, names, directive, supergraph, infos, k + 1),
{
    lemma_members_kept_chain(start, a, b);
    assert forall|q: int| 0 <= q < k + 1 implies input_type_placed(
        b,
        names,
        directive,
        supergraph,
        #[trigger] infos[q],
    ) by {
        if q < k {
            assert(input_type_placed(a, names, directive, supergraph, infos[q]));
            if let Ok(at) = supergraph.locate(infos[q].name, TypeKind::InputObject) {
                let inputs = supergraph.types[at].input_fields;
                assert forall|j: int| 0 <= j < inputs.len() implies member_placed(
                    b,
                    names,
                    directive,
                    infos[q],
                    (#[trigger] inputs[j]).directives,
                    inputs[j].name,
                ) by {
                    lemma_member_placed_kept(
                        a,
                        b,
                        names,
                        directive,
                        infos[q],
                        inputs[j].directives,
                        inputs[j].name,
                    );
                }
            }
        }
    }
}

/// A registry in which the service that the next value of the graph
/// enumeration stands for got the member, and no service lost one, has the
/// member in the services of the values up to the next.
pub proof fn lemma_graph_assigned(
    start: Seq<SubgraphView>,
    s: Seq<SubgraphView>,
    i: int,
    schema: SchemaView,
    names: Seq<(Seq<char>, Seq<char>)>,
    graphs: Seq<Seq<char>>,
    k: int,
    owner: Seq<char>,
    member: Seq<char>,
)
    requires
        members_kept(start, s),
        assigned_to_graphs(s, names, graphs, k, owner, member),
        0 <= k < graphs.len(),
        0 <= i < s.len(),
        lookup(names, graphs[k]) == Some(s[i].name),
        placed(s[i].schema, schema, owner, member),
    ensures
        members_kept(start, with_schema(s, i, schema)),
        assigned_to_graphs(with_schema(s, i, schema), names, graphs, k + 1, owner, member),
{
    let after = with_schema(s, i, schema);
    lemma_kept_edit(s, s, i, schema);
    lemma_kept_edit(start, s, i, schema);
    assert forall|j: int| 0 <= j < k + 1 implies assigned(
        after,
        names,
        #[trigger] graphs[j],
        owner,
        member,
    ) by {
        if j < k {
            lemma_assigned_kept(s, after, names, graphs[j], owner, member);
        } else {
            assert(after[i].name == s[i].name && has_member(after[i].schema, owner, member));
        }
    }
}

/// A value that is where the rules give it is still there where the members
/// are kept.
pub proof fn lemma_value_placed_kept(
    a: Seq<SubgraphView>,
    b: Seq<SubgraphView>,
    names: Seq<(Seq<char>, Seq<char>)>,
    directive: Option<Seq<char>>,
    info: TypeInfoView,
    value: EnumValueView,
)
    requires
        members_kept(a, b),
        value_placed(a, names, directive, info, value),
    ensures
        value_placed(b, names, directive, info, value),
{
    if let Ok(graphs) = optional_applications(value.directives, directive, graph_decoder()) {
        if graphs.len() == 0 {
            assert forall|k: int| 0 <= k < info.owners.len() implies assigned(
                b,
                names,
                (#[trigger] info.owners[k]).0,
                info.name,
                value.name,
            ) by {
                lemma_assigned_kept(a, b, names, info.owners[k].0, info.name, value.name);
            }
        } else {
            assert forall|k: int| 0 <= k < graphs.len() implies assigned(
                b,
                names,
                #[trigger] graphs[k],
                info.name,
                value.name,
            ) by {
                lemma_assigned_kept(a, b, names, graphs[k], info.name, value.name);
            }
        }
    }
}

/// After the next value has been given to its services, with no member lost,
/// the values up to the next are where the rules give them.
pub proof fn lemma_values_placed_next(
    start: Seq<SubgraphView>,
    a: Seq<SubgraphView>,
    b: Seq<SubgraphView>,
    names: Seq<(Seq<char>, Seq<char>)>,
    directive: Option<Seq<char>>,
    info: TypeInfoView,
    values: Seq<EnumValueView>,
    k: int,
)
    requires
        members_kept(start, a),
        members_kept(a, b),
        values_placed(a, names, directive, info, values, k),
        0 <= k < values.len(),
        value_placed(b, names, directive, info, values[k]),
    ensures
        members_kept(start, b),
        values_placed(b, names, directive, info, values, k + 1),
{
    lemma_members_kept_chain(start, a, b);
    assert forall|j: int| 0 <= j < k + 1 implies value_placed(
        b,
        names,
        directive,
        info,
        #[trigger] values[j],
    ) by {
        if j < k {
            lemma_value_placed_kept(a, b, names, directive, info, values[j]);
        }
    }
}

/// After the enum of the next record has been given its values, with no
/// member lost, the enums of the records up to the next have them where the
/// rules give them.
pub proof fn lemma_enums_placed_next(
    start: Seq<SubgraphView>,
    a: Seq<SubgraphView>,
    b: Seq<SubgraphView>,
    names: Seq<(Seq<char>, Seq<char>)>,
    directive: Option<Seq<char>>,
    supergraph: SchemaView,
    infos: Seq<TypeInfoView>,
    k: int,
)
    requires
        members_kept(start, a),
        members_kept(a, b),
        enums_placed(a, names, directive, supergraph, infos, k),
        0 <= k < infos.len(),
        enum_placed(b, names, directive, supergraph, infos[k]),
    ensures
        members_kept(start, b),
        enums_placed(b, names, directive, supergraph, infos, k + 1),
{
    lemma_members_kept_chain(start, a, b);
    assert forall|q: int| 0 <= q < k + 1 implies enum_placed(
        b,
        names,
        directive,
        supergraph,
        #[trigger] infos[q],
    ) by {
        if q < k {
            assert(enum_placed(a, names, directive, supergraph, infos[q]));
            if let Ok(at) = supergraph.locate(infos[q].name, TypeKind::Enum) {
                let values = supergraph.types[at].values;
                assert forall|j: int| 0 <= j < values.len() implies value_placed(
                    b,
                    names,
                    directive,
                    infos[q],
                    #[trigger] values[j],
                ) by {
                    lemma_value_placed_kept(a, b, names, directive, infos[q], values[j]);
                }
            }
        }
    }
}

/// Chained, "types kept" stays "types kept".
pub proof fn lemma_types_kept_chain(a: Seq<SubgraphView>, b: Seq<SubgraphView>, c: Seq<SubgraphView>)
    requires
        types_kept(a, b),
        types_kept(b, c),
    ensures
        types_kept(a, c),
{
    assert forall|i: int| 0 <= i < a.len() implies same_defined(
        a[i].schema,
        (#[trigger] c[i]).schema,
    ) by {
        assert(same_defined(a[i].schema, b[i].schema));
        assert(same_defined(b[i].schema, c[i].schema));
        assert forall|n: Seq<char>|
            #![trigger a[i].schema.defines(n)]
            #![trigger c[i].schema.defines(n)]
            a[i].schema.defines(n) == c[i].schema.defines(n) by {
            assert(a[i].schema.defines(n) == b[i].schema.defines(n));
        }
    }
}

/// A registry in which the schema of one service defines the names that it
/// defined has kept the types.
pub proof fn lemma_types_kept_edit(
    start: Seq<SubgraphView>,
    s: Seq<SubgraphView>,
    i: int,
    schema: SchemaView,
)
    requires
        types_kept(start, s),
        0 <= i < s.len(),
        same_defined(s[i].schema, schema),
    ensures
        types_kept(start, with_schema(s, i, schema)),
{
    let after = with_schema(s, i, schema);
    assert(types_kept(s, after)) by {
        assert forall|j: int| 0 <= j < s.len() implies same_defined(
            s[j].schema,
            (#[trigger] after[j]).schema,
        ) by {}
    }
    lemma_types_kept_chain(start, s, after);
}

/// A schema to which the next member has been added where it defines it, or
/// which was left as it is where it does not, has the members up to the next
/// that it defines.
pub proof fn lemma_fanned_next(
    start: SchemaView,
    before: SchemaView,
    after: SchemaView,
    owner: Seq<char>,
    members: Seq<Seq<char>>,
    k: int,
)
    requires
        fanned_out(start, before, owner, members, k),
        0 <= k < members.len(),
        no_new_member(after, before),
        same_defined(before, after),
        after.defines(members[k]) ==> has_member(after, owner, members[k]),
    ensures
        fanned_out(start, after, owner, members, k + 1),
{
    assert forall|o: Seq<char>, m: Seq<char>| #[trigger] has_member(start, o, m) implies has_member(
        after,
        o,
        m,
    ) by {
        assert(has_member(before, o, m));
    }
    assert forall|n: Seq<char>|
        #![trigger start.defines(n)]
        #![trigger after.defines(n)]
        start.defines(n) == after.defines(n) by {
        assert(start.defines(n) == before.defines(n));
    }
    assert forall|m: int|
        0 <= m < k + 1 && after.defines(#[trigger] members[m]) implies has_member(
        after,
        owner,
        members[m],
    ) by {
        if m < k {
            assert(before.defines(members[m]));
            assert(has_member(before, owner, members[m]));
        }
    }
}

/// A service that has a member where it defines it still has it so where
/// members and types are kept.
pub proof fn lemma_where_defined_kept(
    a: Seq<SubgraphView>,
    b: Seq<SubgraphView>,
    names: Seq<(Seq<char>, Seq<char>)>,
    graph: Seq<char>,
    owner: Seq<char>,
    member: Seq<char>,
)
    requires
        members_kept(a, b),
        types_kept(a, b),
        assigned_where_defined(a, names, graph, owner, member),
    ensures
        assigned_where_defined(b, names, graph, owner, member),
{
    let i = choose|i: int|
        0 <= i < a.len() && lookup(names, graph) == Some((#[trigger] a[i]).name) && (
        a[i].schema.defines(member) ==> has_member(a[i].schema, owner, member));
    assert(b[i].name == a[i].name);
    assert(same_defined(a[i].schema, b[i].schema));
    if b[i].schema.defines(member) {
        assert(a[i].schema.defines(member));
        assert(has_member(a[i].schema, owner, member));
        assert(has_member(b[i].schema, owner, member));
    }
}

/// A registry in which the service of the next owner got the members that it
/// defines, and no service lost a member or a type, has them in the services
/// of the owners up to the next.
pub proof fn lemma_owner_fanned(
    start: Seq<SubgraphView>,
    s: Seq<SubgraphView>,
    i: int,
    schema: SchemaView,
    names: Seq<(Seq<char>, Seq<char>)>,
    owners: Seq<(Seq<char>, bool)>,
    k: int,
    owner: Seq<char>,
    members: Seq<Seq<char>>,
)
    requires
        members_kept(start, s),
        types_kept(start, s),
        fanned_to_owners(s, names, owners, k, owner, members),
        0 <= k < owners.len(),
        0 <= i < s.len(),
        lookup(names, owners[k].0) == Some(s[i].name),
        fanned_out(s[i].schema, schema, owner, members, members.len() as int),
    ensures
        members_kept(start, with_schema(s, i, schema)),
        types_kept(start, with_schema(s, i, schema)),
        fanned_to_owners(with_schema(s, i, schema), names, owners, k + 1, owner, members),
{
    let after = with_schema(s, i, schema);
    lemma_kept_edit(s, s, i, schema);
    lemma_kept_edit(start, s, i, schema);
    assert(types_kept(s, s)) by {
        assert forall|j: int| 0 <= j < s.len() implies same_defined(
            s[j].schema,
            (#[trigger] s[j]).schema,
        ) by {}
    }
    lemma_types_kept_edit(s, s, i, schema);
    lemma_types_kept_edit(start, s, i, schema);
    assert forall|j: int, m: int| 0 <= j < k + 1 && 0 <= m < members.len() implies assigned_where_defined(
        after,
        names,
        (#[trigger] owners[j]).0,
        owner,
        #[trigger] members[m],
    ) by {
        if j < k {
            lemma_where_defined_kept(s, after, names, owners[j].0, owner, members[m]);
        } else {
            assert(after[i].name == s[i].name);
            assert(after[i].schema.defines(members[m]) ==> has_member(
                after[i].schema,
                owner,
                members[m],
            ));
        }
    }
}

/// A registry in which the service that the next member application names
/// got the member, and no service lost a member or a type, has the members in
/// the services that the applications up to the next name.
pub proof fn lemma_target_assigned(
    start: Seq<SubgraphView>,
    s: Seq<SubgraphView>,
    i: int,
    schema: SchemaView,
    names: Seq<(Seq<char>, Seq<char>)>,
    apps: Seq<TargetArgumentsView>,
    k: int,
    owner: Seq<char>,
)
    requires
        members_kept(start, s),
        types_kept(start, s),
        assigned_to_targets(s, names, apps, k, owner),
        0 <= k < apps.len(),
        0 <= i < s.len(),
        lookup(names, apps[k].graph) == Some(s[i].name),
        graphql_name_spec(apps[k].target) is Ok,
        placed(s[i].schema, schema, owner, graphql_name_spec(apps[k].target)->Ok_0),
        same_defined(s[i].schema, schema),
    ensures
        members_kept(start, with_schema(s, i, schema)),
        types_kept(start, with_schema(s, i, schema)),
        assigned_to_targets(with_schema(s, i, schema), names, apps, k + 1, owner),
{
    let after = with_schema(s, i, schema);
    lemma_kept_edit(s, s, i, schema);
    lemma_kept_edit(start, s, i, schema);
    lemma_types_kept_edit(start, s, i, schema);
    assert forall|j: int| 0 <= j < k + 1 implies match graphql_name_spec((#[trigger] apps[j]).target) {
        Ok(member) => assigned(after, names, apps[j].graph, owner, member),
        Err(_) => true,
    } by {
        if j < k {
            if let Ok(member) = graphql_name_spec(apps[j].target) {
                lemma_assigned_kept(s, after, names, apps[j].graph, owner, member);
            }
        } else {
            let member = graphql_name_spec(apps[k].target)->Ok_0;
            assert(after[i].name == s[i].name && has_member(after[i].schema, owner, member));
        }
    }
}

/// A union whose members are where the rules give them still has them there
/// where members and types are kept.
pub proof fn lemma_union_placed_kept(
    a: Seq<SubgraphView>,
    b: Seq<SubgraphView>,
    names: Seq<(Seq<char>, Seq<char>)>,
    directive: Option<Seq<char>>,
    supergraph: SchemaView,
    info: TypeInfoView,
)
    requires
        members_kept(a, b),
        types_kept(a, b),
        union_placed(a, names, directive, supergraph, info),
    ensures
        union_placed(b, names, directive, supergraph, info),
{
    if let Ok(at) = supergraph.locate(info.name, TypeKind::Union) {
        let t = supergraph.types[at];
        if let Ok(apps) = optional_applications(t.directives, directive, target_decoder("member"@)) {
            if apps.len() == 0 {
                assert forall|k: int, m: int|
                    0 <= k < info.owners.len() && 0 <= m < t.members.len() implies assigned_where_defined(
                    b,
                    names,
                    (#[trigger] info.owners[k]).0,
                    info.name,
                    #[trigger] t.members[m],
                ) by {
                    lemma_where_defined_kept(a, b, names, info.owners[k].0, info.name, t.members[m]);
                }
            } else {
                assert forall|k: int| 0 <= k < apps.len() implies match graphql_name_spec(
                    (#[trigger] apps[k]).target,
                ) {
                    Ok(member) => assigned(b, names, apps[k].graph, info.name, member),
                    Err(_) => true,
                } by {
                    if let Ok(member) = graphql_name_spec(apps[k].target) {
                        lemma_assigned_kept(a, b, names, apps[k].graph, info.name, member);
                    }
                }
            }
        }
    }
}

/// After the union of the next record has been given its members, with no
/// member or type lost, the unions of the records up to the next have their
/// members where the rules give them.
pub proof fn lemma_unions_placed_next(
    start: Seq<SubgraphView>,
    a: Seq<SubgraphView>,
    b: Seq<SubgraphView>,
    names: Seq<(Seq<char>, Seq<char>)>,
    directive: Option<Seq<char>>,
    supergraph: SchemaView,
    infos: Seq<TypeInfoView>,
    k: int,
)
    requires
        members_kept(start, a),
        types_kept(start, a),
        members_kept(a, b),
        types_kept(a, b),
        unions_placed(a, names, directive, supergraph, infos, k),
        0 <= k < infos.len(),
        union_placed(b, names, directive, supergraph, infos[k]),
    ensures
        members_kept(start, b),
        types_kept(start, b),
        unions_placed(b, names, directive, supergraph, infos, k + 1),
{
    lemma_members_kept_chain(start, a, b);
    lemma_types_kept_chain(start, a, b);
    assert forall|q: int| 0 <= q < k + 1 implies union_placed(
        b,
        names,
        directive,
        supergraph,
        #[trigger] infos[q],
    ) by {
        if q < k {
            lemma_union_placed_kept(a, b, names, directive, supergraph, infos[q]);
        }
    }
}

/// Whether the services have every member that the rules give them, for the
/// records of scaffolding: the fields of the objects and interfaces, the
/// members of the unions, the values of the enums and the input fields of the
/// input objects.
pub open spec fn all_placed(
    registry: Seq<SubgraphView>,
    names: Seq<(Seq<char>, Seq<char>)>,
    supergraph: SchemaView,
    join: JoinSpecView,
    infos: TypeInfosView,
) -> bool {
    let field = required_directive(supergraph, join, "field"@)->Ok_0;
    &&& types_placed(
        registry,
        names,
        field,
        supergraph,
        TypeKind::Object,
        infos.object_types,
        infos.object_types.len() as int,
    )
    &&& types_placed(
        registry,
        names,
        field,
        supergraph,
        TypeKind::Interface,
        infos.interface_types,
        infos.interface_types.len() as int,
    )
    &&& unions_placed(
        registry,
        names,
        versioned_directive(supergraph, join, "unionMember"@, 3)->Ok_0,
        supergraph,
        infos.union_types,
        infos.union_types.len() as int,
    )
    &&& enums_placed(
        registry,
        names,
        versioned_directive(supergraph, join, "enumValue"@, 3)->Ok_0,
        supergraph,
        infos.enum_types,
        infos.enum_types.len() as int,
    )
    &&& input_types_placed(
        registry,
        names,
        field,
        supergraph,
        infos.input_object_types,
        infos.input_object_types.len() as int,
    )
}

/// Services that keep the names and kinds of their types define the names
/// that they defined.
pub proof fn lemma_kinds_kept_types(a: Seq<SubgraphView>, b: Seq<SubgraphView>)
    requires
        kinds_kept(a, b),
    ensures
        types_kept(a, b),
{
    assert forall|i: int| 0 <= i < a.len() implies same_defined(
        a[i].schema,
        (#[trigger] b[i]).schema,
    ) by {
        assert(same_kinds(a[i].schema, b[i].schema));
        lemma_same_names_define(a[i].schema, b[i].schema);
    }
}

/// Unions whose members are where the rules give them still have them there
/// where members and types are kept.
pub proof fn lemma_unions_placed_kept(
    a: Seq<SubgraphView>,
    b: Seq<SubgraphView>,
    names: Seq<(Seq<char>, Seq<char>)>,
    directive: Option<Seq<char>>,
    supergraph: SchemaView,
    infos: Seq<TypeInfoView>,
    upto: int,
)
    requires
        members_kept(a, b),
        types_kept(a, b),
        unions_placed(a, names, directive, supergraph, infos, upto),
    ensures
        unions_placed(b, names, directive, supergraph, infos, upto),
{
    assert forall|k: int| 0 <= k < upto implies union_placed(
        b,
        names,
        directive,
        supergraph,
        #[trigger] infos[k],
    ) by {
        lemma_union_placed_kept(a, b, names, directive, supergraph, infos[k]);
    }
}

/// Enums whose values are where the rules give them still have them there
/// where the members are kept.
pub proof fn lemma_enums_placed_kept(
    a: Seq<SubgraphView>,
    b: Seq<SubgraphView>,
    names: Seq<(Seq<char>, Seq<char>)>,
    directive: Option<Seq<char>>,
    supergraph: SchemaView,
    infos: Seq<TypeInfoView>,
    upto: int,
)
    requires
        members_kept(a, b),
        enums_placed(a, names, directive, supergraph, infos, upto),
    ensures
        enums_placed(b, names, directive, supergraph, infos, upto),
{
    assert forall|q: int| 0 <= q < upto implies enum_placed(
        b,
        names,
        directive,
        supergraph,
        #[trigger] infos[q],
    ) by {
        assert(enum_placed(a, names, directive, supergraph, infos[q]));
        if let Ok(at) = supergraph.locate(infos[q].name, TypeKind::Enum) {
            let values = supergraph.types[at].values;
            assert forall|j: int| 0 <= j < values.len() implies value_placed(
                b,
                names,
                directive,
                infos[q],
                #[trigger] values[j],
            ) by {
                lemma_value_placed_kept(a, b, names, directive, infos[q], values[j]);
            }
        }
    }
}

} // verus!
