//! Ownership closure: every member of every type of an extracted schema
//! traces to the supergraph. It is a member there of a type of the same name
//! that the service owns by a type-level application, and it reaches the
//! service by an application of its own that names the service, or by having
//! no application at all; or it is a member that the federation preamble or
//! the federation operations bring.
use crate::edits::RootKind;
use crate::enums::{
    enum_content, enum_type_step, enum_value_step, explicit_value_step, implicit_value_step,
};
use crate::extract::{
    complete, complete_schema, complete_step, definition_step, executable_definitions, extraction,
    finish, finish_schema, finish_step, populate, validation_wanted,
};
use crate::federation::{interface_object_directive, key_directive, preamble, purpose_enum};
use crate::fields::{subgraph_field, subgraph_input_field};
use crate::inputs::{
    explicit_input_step, implicit_input_step, input_content, input_field_step, input_type_step,
};
use crate::interfaces::{
    explicit_interface_step, implicit_interface_step, interface_content, interface_destination,
    interface_field_step, interface_implements_step, interface_type_step,
};
use crate::join::{
    FieldArgumentsView, JoinSpecView, TargetArgumentsView, TypeArgumentsView, element_name,
    graph_arguments, target_arguments,
};
use crate::members::{
    has_member, lemma_insert_directive_definition_members, lemma_insert_enum_value_members,
    lemma_insert_field_members, lemma_insert_implements_members, lemma_insert_input_field_members,
    lemma_insert_member_members, lemma_insert_root_members, lemma_insert_shell_members,
    lemma_insert_type_directive_members, lemma_prune_members, lemma_remove_field_members,
    no_new_member, one_new_member, type_has,
};
use crate::objects::{
    explicit_object_step, implicit_object_step, is_shareable, object_content, object_field_step,
    object_implements_step, object_type_step,
};
use crate::operations::{entities_field, entity_names, entity_step, sdl_field, service_field};
use crate::ordered::{has_key, key_index, lookup, put};
use crate::provenance::{
    applications, applies, field_decoder, graph_decoder, optional_applications, target_decoder,
    type_decoder,
};
use crate::scaffold::{
    ScaffoldView, SeedView, ShellView, TypeInfoView, TypeInfosView, add_empty_type_spec, graph_enum,
    root_kind_of, scaffold, scaffold_step, scalar_step, seed, seed_step, shell_step,
};
use crate::schema::{
    DirectiveDefinitionView, DirectiveView, FieldView, InputValueView, SchemaView,
    TypeDefinitionView, TypeKind,
};
use crate::seqs::{first_where, lemma_first_where, lemma_try_fold_keeps, try_fold};
use crate::subgraphs::{SubgraphView, insertion_point, named, not_before, resolve, with_schema};
use crate::supergraph::{
    SpecsView, is_spec_type, required_directive, resolve_specs, versioned_directive,
};
use crate::surface::{
    lemma_entity_union, lemma_query_root, lemma_root_fields, lemma_service_types, lemma_type_index,
};
use crate::unions::{
    explicit_union_step, fan_out_step, implicit_union_step, union_content, union_type_step,
};
use vstd::prelude::*;

verus! {

/// Where the services are drawn from: the supergraph, the specifications by
/// which it is read, and the service names by value of the graph enumeration.
pub struct Origin {
    pub supergraph: SchemaView,
    pub specs: SpecsView,
    pub names: Seq<(Seq<char>, Seq<char>)>,
}

/// The name in the supergraph of the join directive `element`.
pub open spec fn join_directive(o: Origin, element: Seq<char>) -> Seq<char> {
    element_name(o.specs.join.spec_name, element)
}

/// The name in the supergraph of a join directive that came with version
/// `0.since` of the specification, and nothing under an earlier version.
pub open spec fn later_directive(o: Origin, element: Seq<char>, since: u32) -> Option<Seq<char>> {
    if o.specs.join.version.major == 0 && o.specs.join.version.minor < since {
        None
    } else {
        Some(join_directive(o, element))
    }
}

/// The type-level applications of a supergraph type, where they can be read.
pub open spec fn type_applications_of(o: Origin, t: TypeDefinitionView) -> Seq<TypeArgumentsView> {
    match applications(t.directives, join_directive(o, "type"@), type_decoder()) {
        Ok(apps) => apps,
        Err(_) => Seq::empty(),
    }
}

/// Whether one of the applications names the service `graph`.
pub open spec fn names_graph(apps: Seq<TypeArgumentsView>, graph: Seq<char>) -> bool {
    exists|k: int| 0 <= k < apps.len() && (#[trigger] apps[k]).graph == graph
}

/// Whether the service `graph` owns the type `owner`: the supergraph has a
/// type of that name, of no specification, with a type-level application
/// that names the service.
pub open spec fn owns(o: Origin, owner: Seq<char>, graph: Seq<char>) -> bool {
    exists|ti: int|
        0 <= ti < o.supergraph.types.len() && (#[trigger] o.supergraph.types[ti]).name == owner
            && !is_spec_type(o.specs, owner) && names_graph(
            type_applications_of(o, o.supergraph.types[ti]),
            graph,
        )
}

/// Whether a field or input field with these directives reaches the service
/// `graph`: it has no field-level application, or one that names the
/// service.
pub open spec fn field_reaches(o: Origin, directives: Seq<DirectiveView>, graph: Seq<char>) -> bool {
    match applications(directives, join_directive(o, "field"@), field_decoder()) {
        Ok(apps) => apps.len() == 0 || exists|k: int|
            0 <= k < apps.len() && (#[trigger] apps[k]).graph == Some(graph),
        Err(_) => false,
    }
}

/// Whether an enum value with these directives reaches the service `graph`:
/// it has no value-level application, or one that names the service.
pub open spec fn value_reaches(o: Origin, directives: Seq<DirectiveView>, graph: Seq<char>) -> bool {
    match optional_applications(directives, later_directive(o, "enumValue"@, 3), graph_decoder()) {
        Ok(graphs) => graphs.len() == 0 || graphs.contains(graph),
        Err(_) => false,
    }
}

/// Whether `member` reaches the service `graph` as a member of the union `t`:
/// the union has no member application and lists the member, or it has an
/// application that names the service and the member.
pub open spec fn member_reaches(
    o: Origin,
    t: TypeDefinitionView,
    member: Seq<char>,
    graph: Seq<char>,
) -> bool {
    match optional_applications(
        t.directives,
        later_directive(o, "unionMember"@, 3),
        target_decoder("member"@),
    ) {
        Ok(apps) => (apps.len() == 0 && t.members.contains(member)) || exists|k: int|
            0 <= k < apps.len() && (#[trigger] apps[k]) == (TargetArgumentsView {
                graph,
                target: member,
            }),
        Err(_) => false,
    }
}

/// Whether the supergraph type `t` gives the member `member` to the service
/// `graph`.
pub open spec fn type_gives(
    o: Origin,
    t: TypeDefinitionView,
    member: Seq<char>,
    graph: Seq<char>,
) -> bool {
    ||| exists|j: int|
        0 <= j < t.fields.len() && (#[trigger] t.fields[j]).name == member && field_reaches(
            o,
            t.fields[j].directives,
            graph,
        )
    ||| exists|j: int|
        0 <= j < t.input_fields.len() && (#[trigger] t.input_fields[j]).name == member
            && field_reaches(o, t.input_fields[j].directives, graph)
    ||| exists|j: int|
        0 <= j < t.values.len() && (#[trigger] t.values[j]).name == member && value_reaches(
            o,
            t.values[j].directives,
            graph,
        )
    ||| member_reaches(o, t, member, graph)
}

/// Whether a supergraph type named `owner` gives the member `member` to the
/// service `graph`.
pub open spec fn gives(o: Origin, owner: Seq<char>, member: Seq<char>, graph: Seq<char>) -> bool {
    exists|ti: int|
        0 <= ti < o.supergraph.types.len() && (#[trigger] o.supergraph.types[ti]).name == owner
            && type_gives(o, o.supergraph.types[ti], member, graph)
}

/// Whether the member is one that the federation preamble brings: a value of
/// `link__Purpose`.
pub open spec fn is_preamble_member(owner: Seq<char>, member: Seq<char>) -> bool {
    owner == "link__Purpose"@ && (member == "SECURITY"@ || member == "EXECUTION"@)
}

/// Whether the member is one that the federation operations bring to a
/// schema whose query root is `query`: the field `sdl` of `_Service`, a member
/// of `_Entity`, or the field `_service` or `_entities` of the query root.
pub open spec fn is_operation_member_under(
    query: Seq<char>,
    owner: Seq<char>,
    member: Seq<char>,
) -> bool {
    ||| owner == "_Service"@ && member == "sdl"@
    ||| owner == "_Entity"@
    ||| owner == query && (member == "_service"@ || member == "_entities"@)
}

/// Whether the member is one that the federation operations bring to the
/// schema.
pub open spec fn is_operation_member(
    schema: SchemaView,
    owner: Seq<char>,
    member: Seq<char>,
) -> bool {
    ||| owner == "_Service"@ && member == "sdl"@
    ||| owner == "_Entity"@
    ||| schema.query_type == Some(owner) && (member == "_service"@ || member == "_entities"@)
}

/// Whether the value `graph` of the graph enumeration stands for a service
/// named `service` that owns `owner` and gets `member` from it.
pub open spec fn traced_by(
    o: Origin,
    service: Seq<char>,
    owner: Seq<char>,
    member: Seq<char>,
    graph: Seq<char>,
) -> bool {
    lookup(o.names, graph) == Some(service) && owns(o, owner, graph) && gives(
        o,
        owner,
        member,
        graph,
    )
}

/// Whether the member `member` of the type `owner` of the service `service`
/// traces to the supergraph or to the preamble.
pub open spec fn traced(o: Origin, service: Seq<char>, owner: Seq<char>, member: Seq<char>) -> bool {
    is_preamble_member(owner, member) || exists|graph: Seq<char>| #[trigger]
        traced_by(o, service, owner, member, graph)
}

/// Whether every member of every type of the schema of the service traces to
/// the supergraph or to the preamble.
pub open spec fn schema_traced(o: Origin, service: Seq<char>, schema: SchemaView) -> bool {
    forall|owner: Seq<char>, member: Seq<char>| #[trigger]
        has_member(schema, owner, member) ==> traced(o, service, owner, member)
}

/// Whether every member of every type of every service traces to the
/// supergraph or to the preamble.
pub open spec fn all_traced(o: Origin, subgraphs: Seq<SubgraphView>) -> bool {
    forall|i: int|
        0 <= i < subgraphs.len() ==> schema_traced(
            o,
            (#[trigger] subgraphs[i]).name,
            subgraphs[i].schema,
        )
}

/// Whether every member of every type of the schema of the service is
/// accounted for: it traces to the supergraph or to the preamble, or is one
/// that the federation operations bring to the schema.
pub open spec fn schema_members_accounted(o: Origin, service: Seq<char>, schema: SchemaView) -> bool {
    forall|owner: Seq<char>, member: Seq<char>| #[trigger]
        has_member(schema, owner, member) ==> traced(o, service, owner, member)
            || is_operation_member(schema, owner, member)
}

/// Whether every member of every type of every service is accounted for.
pub open spec fn all_members_accounted(o: Origin, subgraphs: Seq<SubgraphView>) -> bool {
    forall|i: int|
        0 <= i < subgraphs.len() ==> schema_members_accounted(
            o,
            (#[trigger] subgraphs[i]).name,
            subgraphs[i].schema,
        )
}

/// A value of the graph enumeration that resolves stands for the service at
/// the position that it resolves to.
pub proof fn lemma_resolve(
    names: Seq<(Seq<char>, Seq<char>)>,
    subgraphs: Seq<SubgraphView>,
    graph: Seq<char>,
)
    requires
        resolve(names, subgraphs, graph) is Ok,
    ensures
        ({
            let i = resolve(names, subgraphs, graph)->Ok_0;
            0 <= i < subgraphs.len() && lookup(names, graph) == Some(subgraphs[i].name)
        }),
{
    let name = lookup(names, graph)->0;
    lemma_first_where(subgraphs, named(name));
}

/// A registry in which the schema of one service got no new member is
/// accounted for as it was.
pub proof fn lemma_no_new_traced(o: Origin, subgraphs: Seq<SubgraphView>, i: int, schema: SchemaView)
    requires
        all_traced(o, subgraphs),
        0 <= i < subgraphs.len(),
        no_new_member(subgraphs[i].schema, schema),
    ensures
        all_traced(o, with_schema(subgraphs, i, schema)),
{
    let after = with_schema(subgraphs, i, schema);
    assert forall|j: int| 0 <= j < after.len() implies schema_traced(
        o,
        (#[trigger] after[j]).name,
        after[j].schema,
    ) by {
        assert(schema_traced(o, subgraphs[j].name, subgraphs[j].schema));
        if j == i {
            assert forall|owner: Seq<char>, member: Seq<char>| #[trigger]
                has_member(schema, owner, member) implies traced(
                o,
                subgraphs[i].name,
                owner,
                member,
            ) by {
                assert(has_member(subgraphs[i].schema, owner, member));
            }
        }
    }
}

/// A registry in which the schema of one service got one new member, which
/// is accounted for, is accounted for.
pub proof fn lemma_one_new_traced(
    o: Origin,
    subgraphs: Seq<SubgraphView>,
    i: int,
    schema: SchemaView,
    owner: Seq<char>,
    member: Seq<char>,
)
    requires
        all_traced(o, subgraphs),
        0 <= i < subgraphs.len(),
        one_new_member(subgraphs[i].schema, schema, owner, member),
        traced(o, subgraphs[i].name, owner, member),
    ensures
        all_traced(o, with_schema(subgraphs, i, schema)),
{
    let after = with_schema(subgraphs, i, schema);
    assert forall|j: int| 0 <= j < after.len() implies schema_traced(
        o,
        (#[trigger] after[j]).name,
        after[j].schema,
    ) by {
        assert(schema_traced(o, subgraphs[j].name, subgraphs[j].schema));
        if j == i {
            assert forall|ow: Seq<char>, m: Seq<char>| #[trigger]
                has_member(schema, ow, m) implies traced(o, subgraphs[i].name, ow, m) by {
                if !(ow == owner && m == member) {
                    assert(has_member(subgraphs[i].schema, ow, m));
                }
            }
        }
    }
}

/// Chained, "no new member" stays "no new member".
pub proof fn lemma_no_new_chain(a: SchemaView, b: SchemaView, c: SchemaView)
    requires
        no_new_member(a, b),
        no_new_member(b, c),
    ensures
        no_new_member(a, c),
{
    assert forall|owner: Seq<char>, member: Seq<char>| #[trigger]
        has_member(c, owner, member) implies has_member(a, owner, member) by {
        assert(has_member(b, owner, member));
    }
}

/// The shell of a supergraph type brings no member.
pub proof fn lemma_insert_shell_for_members(
    s: SchemaView,
    name: Seq<char>,
    kind: TypeKind,
    is_interface_object: bool,
)
    ensures
        s.insert_shell_for(name, kind, is_interface_object) matches Ok(a) ==> no_new_member(s, a),
{
    if s.insert_shell_for(name, kind, is_interface_object) is Ok {
        match kind {
            TypeKind::Object => {
                let a = s.insert_shell(name, TypeKind::Object, Seq::empty())->Ok_0;
                lemma_insert_shell_members(s, name, TypeKind::Object, Seq::empty());
                match root_kind_of(name) {
                    Some(root) => {
                        if a.root(root).is_none() {
                            lemma_insert_root_members(a, root, name);
                            lemma_no_new_chain(s, a, a.insert_root(root, name)->Ok_0);
                        }
                    },
                    None => {},
                }
            },
            TypeKind::Interface => {
                if is_interface_object {
                    lemma_insert_shell_members(
                        s,
                        name,
                        TypeKind::Object,
                        seq![interface_object_directive()],
                    );
                } else {
                    lemma_insert_shell_members(s, name, TypeKind::Interface, Seq::empty());
                }
            },
            _ => {
                lemma_insert_shell_members(s, name, kind, Seq::empty());
            },
        }
    }
}

/// A key brings no member.
pub proof fn lemma_attach_key_members(s: SchemaView, name: Seq<char>, app: TypeArgumentsView)
    ensures
        s.attach_key(name, app) matches Ok(a) ==> no_new_member(s, a),
{
    if s.attach_key(name, app) is Ok {
        match app.key {
            None => {},
            Some(key) => {
                lemma_insert_type_directive_members(
                    s,
                    name,
                    key_directive(key, app.resolvable, app.extension),
                );
            },
        }
    }
}

/// Declaring a scalar leaves the registry accounted for.
pub proof fn lemma_scalar_fold(
    o: Origin,
    name: Seq<char>,
    apps: Seq<TypeArgumentsView>,
    subgraphs: Seq<SubgraphView>,
)
    requires
        all_traced(o, subgraphs),
    ensures
        try_fold(apps, 0, subgraphs, scalar_step(o.names, name)) matches Ok(r) ==> all_traced(o, r),
{
    let step = scalar_step(o.names, name);
    let inv = |s: Seq<SubgraphView>| all_traced(o, s);
    assert forall|s: Seq<SubgraphView>, k: int|
        0 <= k < apps.len() && inv(s) && (#[trigger] step(s, apps[k])) is Ok implies inv(
        step(s, apps[k])->Ok_0,
    ) by {
        lemma_resolve(o.names, s, apps[k].graph);
        let i = resolve(o.names, s, apps[k].graph)->Ok_0;
        lemma_insert_shell_members(s[i].schema, name, TypeKind::Scalar, Seq::empty());
        lemma_no_new_traced(
            o,
            s,
            i,
            s[i].schema.insert_shell(name, TypeKind::Scalar, Seq::empty())->Ok_0,
        );
    }
    lemma_try_fold_keeps(apps, 0, subgraphs, step, inv);
}

/// Whether each owner is named by one of the applications.
pub open spec fn owners_within(apps: Seq<TypeArgumentsView>, owners: Seq<(Seq<char>, bool)>) -> bool {
    forall|k: int| 0 <= k < owners.len() ==> names_graph(apps, (#[trigger] owners[k]).0)
}

/// Owners that get one more, named by an application, are named by the
/// applications.
pub proof fn lemma_put_within(
    apps: Seq<TypeArgumentsView>,
    owners: Seq<(Seq<char>, bool)>,
    key: Seq<char>,
    value: bool,
)
    requires
        owners_within(apps, owners),
        names_graph(apps, key),
    ensures
        owners_within(apps, put(owners, key, value)),
{
    lemma_first_where(owners, has_key::<bool>(key));
    let after = put(owners, key, value);
    assert forall|k: int| 0 <= k < after.len() implies names_graph(apps, (#[trigger] after[k]).0) by {
        if k < owners.len() && after[k] == owners[k] {
            assert(names_graph(apps, owners[k].0));
        }
    }
}

/// Scaffolding a type leaves the registry accounted for, and records as
/// owners only services that its applications name.
pub proof fn lemma_shell_fold(
    o: Origin,
    name: Seq<char>,
    kind: TypeKind,
    apps: Seq<TypeArgumentsView>,
    subgraphs: Seq<SubgraphView>,
)
    requires
        all_traced(o, subgraphs),
    ensures
        add_empty_type_spec(o.names, subgraphs, name, kind, apps) matches Ok(r) ==> all_traced(
            o,
            r.subgraphs,
        ) && owners_within(apps, r.owners),
{
    let step = shell_step(o.names, name, kind);
    let inv = |st: ShellView| all_traced(o, st.subgraphs) && owners_within(apps, st.owners);
    assert forall|st: ShellView, k: int|
        0 <= k < apps.len() && inv(st) && (#[trigger] step(st, apps[k])) is Ok implies inv(
        step(st, apps[k])->Ok_0,
    ) by {
        let app = apps[k];
        lemma_resolve(o.names, st.subgraphs, app.graph);
        let i = resolve(o.names, st.subgraphs, app.graph)->Ok_0;
        let schema = st.subgraphs[i].schema;
        let known = lookup(st.owners, app.graph).is_some();
        let is_io = kind == TypeKind::Interface && app.is_interface_object;
        let s1 = if known {
            schema
        } else {
            schema.insert_shell_for(name, kind, is_io)->Ok_0
        };
        if !known {
            lemma_insert_shell_for_members(schema, name, kind, is_io);
            lemma_put_within(apps, st.owners, app.graph, is_io);
        }
        lemma_attach_key_members(s1, name, app);
        let s2 = s1.attach_key(name, app)->Ok_0;
        lemma_no_new_chain(schema, s1, s2);
        lemma_no_new_traced(o, st.subgraphs, i, s2);
    }
    if apps.len() > 0 {
        let start = ShellView { subgraphs, owners: Seq::empty() };
        lemma_try_fold_keeps(apps, 0, start, step, inv);
    }
}

/// Whether the services recorded as owners of a type own it.
pub open spec fn info_ok(o: Origin, info: TypeInfoView) -> bool {
    forall|k: int| 0 <= k < info.owners.len() ==> owns(o, info.name, (#[trigger] info.owners[k]).0)
}

/// Whether the services recorded as owners in each record own the type of
/// the record.
pub open spec fn records_ok(o: Origin, infos: Seq<TypeInfoView>) -> bool {
    forall|k: int| 0 <= k < infos.len() ==> info_ok(o, #[trigger] infos[k])
}

/// Whether every record of scaffolding holds owners of its type only.
pub open spec fn infos_ok(o: Origin, infos: TypeInfosView) -> bool {
    &&& records_ok(o, infos.object_types)
    &&& records_ok(o, infos.interface_types)
    &&& records_ok(o, infos.union_types)
    &&& records_ok(o, infos.enum_types)
    &&& records_ok(o, infos.input_object_types)
}

/// Records with one more that is in order are in order.
pub proof fn lemma_records_push(o: Origin, infos: Seq<TypeInfoView>, info: TypeInfoView)
    requires
        records_ok(o, infos),
        info_ok(o, info),
    ensures
        records_ok(o, infos.push(info)),
{
    assert forall|k: int| 0 <= k < infos.push(info).len() implies info_ok(
        o,
        #[trigger] infos.push(info)[k],
    ) by {
        if k < infos.len() {
            assert(info_ok(o, infos[k]));
        }
    }
}

/// Scaffolding leaves the registry accounted for, and records as owners of a
/// type only services that own it.
pub proof fn lemma_scaffold(o: Origin, subgraphs: Seq<SubgraphView>)
    requires
        all_traced(o, subgraphs),
    ensures
        scaffold(o.supergraph, o.specs, o.names, subgraphs) matches Ok(r) ==> all_traced(
            o,
            r.subgraphs,
        ) && infos_ok(o, r.infos),
{
    if required_directive(o.supergraph, o.specs.join, "type"@) is Ok {
        let type_directive = join_directive(o, "type"@);
        let types = o.supergraph.types;
        let step = scaffold_step(o.names, o.specs, type_directive);
        let inv = |st: ScaffoldView| all_traced(o, st.subgraphs) && infos_ok(o, st.infos);
        assert forall|st: ScaffoldView, k: int|
            0 <= k < types.len() && inv(st) && (#[trigger] step(st, types[k])) is Ok implies inv(
            step(st, types[k])->Ok_0,
        ) by {
            let t = types[k];
            if !is_spec_type(o.specs, t.name) {
                let apps = applications(t.directives, type_directive, type_decoder())->Ok_0;
                if t.kind == TypeKind::Scalar {
                    lemma_scalar_fold(o, t.name, apps, st.subgraphs);
                } else {
                    lemma_shell_fold(o, t.name, t.kind, apps, st.subgraphs);
                    let sh = add_empty_type_spec(o.names, st.subgraphs, t.name, t.kind, apps)->Ok_0;
                    let info = TypeInfoView { name: t.name, owners: sh.owners };
                    assert forall|j: int| 0 <= j < info.owners.len() implies owns(
                        o,
                        info.name,
                        (#[trigger] info.owners[j]).0,
                    ) by {
                        assert(names_graph(apps, sh.owners[j].0));
                        assert(type_applications_of(o, types[k]) == apps);
                    }
                    match t.kind {
                        TypeKind::Object => lemma_records_push(o, st.infos.object_types, info),
                        TypeKind::Interface => lemma_records_push(
                            o,
                            st.infos.interface_types,
                            info,
                        ),
                        TypeKind::Union => lemma_records_push(o, st.infos.union_types, info),
                        TypeKind::Enum => lemma_records_push(o, st.infos.enum_types, info),
                        TypeKind::InputObject => lemma_records_push(
                            o,
                            st.infos.input_object_types,
                            info,
                        ),
                        TypeKind::Scalar => {},
                    }
                }
            }
        }
        let start = ScaffoldView { subgraphs, infos: TypeInfosView::empty() };
        lemma_try_fold_keeps(types, 0, start, step, inv);
    }
}

/// A service that a record lists as owner owns the type of the record.
pub proof fn lemma_listed_owner(o: Origin, info: TypeInfoView, graph: Seq<char>)
    requires
        info_ok(o, info),
        lookup(info.owners, graph).is_some(),
    ensures
        owns(o, info.name, graph),
{
    lemma_first_where(info.owners, has_key::<bool>(graph));
    let k = key_index(info.owners, graph)->0;
    assert(owns(o, info.name, info.owners[k].0));
}

/// A field that reaches a service and is given to it, under a type that the
/// service owns, leaves the registry accounted for.
pub proof fn lemma_field_edit(
    o: Origin,
    subgraphs: Seq<SubgraphView>,
    i: int,
    owner: Seq<char>,
    kind: TypeKind,
    field: FieldView,
    shareable: bool,
    app: FieldArgumentsView,
    graph: Seq<char>,
    at: int,
    fi: int,
)
    requires
        all_traced(o, subgraphs),
        0 <= i < subgraphs.len(),
        lookup(o.names, graph) == Some(subgraphs[i].name),
        owns(o, owner, graph),
        0 <= at < o.supergraph.types.len(),
        o.supergraph.types[at].name == owner,
        0 <= fi < o.supergraph.types[at].fields.len(),
        o.supergraph.types[at].fields[fi] == field,
        field_reaches(o, field.directives, graph),
        subgraphs[i].schema.add_subgraph_field(owner, kind, field, shareable, app) is Ok,
    ensures
        all_traced(
            o,
            with_schema(
                subgraphs,
                i,
                subgraphs[i].schema.add_subgraph_field(owner, kind, field, shareable, app)->Ok_0,
            ),
        ),
{
    let schema = subgraphs[i].schema;
    let f = subgraph_field(field, app, shareable)->Ok_0;
    lemma_insert_field_members(schema, owner, kind, f);
    let t = o.supergraph.types[at];
    assert(t.fields[fi].name == field.name && field_reaches(o, t.fields[fi].directives, graph));
    assert(type_gives(o, t, field.name, graph));
    assert(gives(o, owner, field.name, graph));
    assert(traced_by(o, subgraphs[i].name, owner, field.name, graph));
    lemma_one_new_traced(
        o,
        subgraphs,
        i,
        schema.insert_field(owner, kind, f)->Ok_0,
        owner,
        field.name,
    );
}

/// Recording what an object implements leaves the registry accounted for.
pub proof fn lemma_object_implements_fold(
    o: Origin,
    implements_directive: Seq<char>,
    info: TypeInfoView,
    directives: Seq<DirectiveView>,
    subgraphs: Seq<SubgraphView>,
)
    requires
        all_traced(o, subgraphs),
    ensures
        try_fold(
            directives,
            0,
            subgraphs,
            object_implements_step(o.names, implements_directive, info),
        ) matches Ok(r) ==> all_traced(o, r),
{
    let step = object_implements_step(o.names, implements_directive, info);
    let inv = |s: Seq<SubgraphView>| all_traced(o, s);
    assert forall|s: Seq<SubgraphView>, k: int|
        0 <= k < directives.len() && inv(s) && (#[trigger] step(s, directives[k])) is Ok implies inv(
        step(s, directives[k])->Ok_0,
    ) by {
        let d = directives[k];
        if d.name == implements_directive {
            let app = target_arguments(d, "interface"@)->Ok_0;
            lemma_resolve(o.names, s, app.graph);
            let i = resolve(o.names, s, app.graph)->Ok_0;
            lemma_insert_implements_members(s[i].schema, info.name, TypeKind::Object, app.target);
            lemma_no_new_traced(
                o,
                s,
                i,
                s[i].schema.insert_implements(info.name, TypeKind::Object, app.target)->Ok_0,
            );
        }
    }
    lemma_try_fold_keeps(directives, 0, subgraphs, step, inv);
}

/// Giving an object one of its fields leaves the registry accounted for.
pub proof fn lemma_object_field(
    o: Origin,
    info: TypeInfoView,
    subgraphs: Seq<SubgraphView>,
    at: int,
    fi: int,
)
    requires
        all_traced(o, subgraphs),
        info_ok(o, info),
        0 <= at < o.supergraph.types.len(),
        o.supergraph.types[at].name == info.name,
        0 <= fi < o.supergraph.types[at].fields.len(),
    ensures
        object_field_step(o.names, join_directive(o, "field"@), info)(
            subgraphs,
            o.supergraph.types[at].fields[fi],
        ) matches Ok(r) ==> all_traced(o, r),
{
    let field = o.supergraph.types[at].fields[fi];
    let found = applications(field.directives, join_directive(o, "field"@), field_decoder());
    if found is Ok {
        let apps = found->Ok_0;
        let inv = |s: Seq<SubgraphView>| all_traced(o, s);
        if apps.len() == 0 {
            let shareable = info.owners.len() > 1;
            let step = implicit_object_step(o.names, info.name, field, shareable);
            assert forall|s: Seq<SubgraphView>, k: int|
                0 <= k < info.owners.len() && inv(s) && (#[trigger] step(s, info.owners[k]))
                    is Ok implies inv(step(s, info.owners[k])->Ok_0) by {
                let graph = info.owners[k].0;
                lemma_resolve(o.names, s, graph);
                let i = resolve(o.names, s, graph)->Ok_0;
                assert(owns(o, info.name, info.owners[k].0));
                lemma_field_edit(
                    o,
                    s,
                    i,
                    info.name,
                    TypeKind::Object,
                    field,
                    shareable,
                    FieldArgumentsView::none(),
                    graph,
                    at,
                    fi,
                );
            }
            lemma_try_fold_keeps(info.owners, 0, subgraphs, step, inv);
        } else {
            let shareable = is_shareable(apps);
            let step = explicit_object_step(o.names, info, field, shareable);
            assert forall|s: Seq<SubgraphView>, k: int|
                0 <= k < apps.len() && inv(s) && (#[trigger] step(s, apps[k])) is Ok implies inv(
                step(s, apps[k])->Ok_0,
            ) by {
                match apps[k].graph {
                    None => {},
                    Some(graph) => {
                        lemma_resolve(o.names, s, graph);
                        let i = resolve(o.names, s, graph)->Ok_0;
                        lemma_listed_owner(o, info, graph);
                        lemma_field_edit(
                            o,
                            s,
                            i,
                            info.name,
                            TypeKind::Object,
                            field,
                            shareable,
                            apps[k],
                            graph,
                            at,
                            fi,
                        );
                    },
                }
            }
            lemma_try_fold_keeps(apps, 0, subgraphs, step, inv);
        }
    }
}

/// Populating the objects leaves the registry accounted for.
pub proof fn lemma_object_content(o: Origin, subgraphs: Seq<SubgraphView>, infos: Seq<TypeInfoView>)
    requires
        all_traced(o, subgraphs),
        records_ok(o, infos),
    ensures
        object_content(o.supergraph, o.specs.join, o.names, subgraphs, infos) matches Ok(r)
            ==> all_traced(o, r),
{
    if object_content(o.supergraph, o.specs.join, o.names, subgraphs, infos) is Ok {
        let field_directive = join_directive(o, "field"@);
        let implements_directive = versioned_directive(
            o.supergraph,
            o.specs.join,
            "implements"@,
            2,
        )->Ok_0->0;
        let step = object_type_step(o.supergraph, o.names, field_directive, implements_directive);
        let inv = |s: Seq<SubgraphView>| all_traced(o, s);
        assert forall|s: Seq<SubgraphView>, k: int|
            0 <= k < infos.len() && inv(s) && (#[trigger] step(s, infos[k])) is Ok implies inv(
            step(s, infos[k])->Ok_0,
        ) by {
            let info = infos[k];
            assert(info_ok(o, info));
            lemma_type_index(o.supergraph, info.name);
            let at = o.supergraph.locate(info.name, TypeKind::Object)->Ok_0;
            let t = o.supergraph.types[at];
            lemma_object_implements_fold(o, implements_directive, info, t.directives, s);
            let implemented = try_fold(
                t.directives,
                0,
                s,
                object_implements_step(o.names, implements_directive, info),
            )->Ok_0;
            let field_step = object_field_step(o.names, field_directive, info);
            assert forall|s2: Seq<SubgraphView>, fi: int|
                0 <= fi < t.fields.len() && inv(s2) && (#[trigger] field_step(s2, t.fields[fi]))
                    is Ok implies inv(field_step(s2, t.fields[fi])->Ok_0) by {
                lemma_object_field(o, info, s2, at, fi);
            }
            lemma_try_fold_keeps(t.fields, 0, implemented, field_step, inv);
        }
        lemma_try_fold_keeps(infos, 0, subgraphs, step, inv);
    }
}

/// Recording what an interface implements leaves the registry accounted
/// for.
pub proof fn lemma_interface_implements_fold(
    o: Origin,
    implements_directive: Seq<char>,
    info: TypeInfoView,
    directives: Seq<DirectiveView>,
    subgraphs: Seq<SubgraphView>,
)
    requires
        all_traced(o, subgraphs),
    ensures
        try_fold(
            directives,
            0,
            subgraphs,
            interface_implements_step(o.names, implements_directive, info),
        ) matches Ok(r) ==> all_traced(o, r),
{
    let step = interface_implements_step(o.names, implements_directive, info);
    let inv = |s: Seq<SubgraphView>| all_traced(o, s);
    assert forall|s: Seq<SubgraphView>, k: int|
        0 <= k < directives.len() && inv(s) && (#[trigger] step(s, directives[k])) is Ok implies inv(
        step(s, directives[k])->Ok_0,
    ) by {
        let d = directives[k];
        if d.name == implements_directive {
            let app = target_arguments(d, "interface"@)->Ok_0;
            lemma_resolve(o.names, s, app.graph);
            let i = resolve(o.names, s, app.graph)->Ok_0;
            let kind = interface_destination(s[i].schema, info.owners, app.graph, info.name)->Ok_0;
            lemma_insert_implements_members(s[i].schema, info.name, kind, app.target);
            lemma_no_new_traced(
                o,
                s,
                i,
                s[i].schema.insert_implements(info.name, kind, app.target)->Ok_0,
            );
        }
    }
    lemma_try_fold_keeps(directives, 0, subgraphs, step, inv);
}

/// Giving an interface one of its fields leaves the registry accounted for.
pub proof fn lemma_interface_field(
    o: Origin,
    info: TypeInfoView,
    subgraphs: Seq<SubgraphView>,
    at: int,
    fi: int,
)
    requires
        all_traced(o, subgraphs),
        info_ok(o, info),
        0 <= at < o.supergraph.types.len(),
        o.supergraph.types[at].name == info.name,
        0 <= fi < o.supergraph.types[at].fields.len(),
    ensures
        interface_field_step(o.names, join_directive(o, "field"@), info)(
            subgraphs,
            o.supergraph.types[at].fields[fi],
        ) matches Ok(r) ==> all_traced(o, r),
{
    let field = o.supergraph.types[at].fields[fi];
    let found = applications(field.directives, join_directive(o, "field"@), field_decoder());
    if found is Ok {
        let apps = found->Ok_0;
        let inv = |s: Seq<SubgraphView>| all_traced(o, s);
        if apps.len() == 0 {
            let step = implicit_interface_step(o.names, info, field);
            assert forall|s: Seq<SubgraphView>, k: int|
                0 <= k < info.owners.len() && inv(s) && (#[trigger] step(s, info.owners[k]))
                    is Ok implies inv(step(s, info.owners[k])->Ok_0) by {
                let graph = info.owners[k].0;
                lemma_resolve(o.names, s, graph);
                let i = resolve(o.names, s, graph)->Ok_0;
                let kind = interface_destination(s[i].schema, info.owners, graph, info.name)->Ok_0;
                assert(owns(o, info.name, info.owners[k].0));
                lemma_field_edit(
                    o,
                    s,
                    i,
                    info.name,
                    kind,
                    field,
                    false,
                    FieldArgumentsView::none(),
                    graph,
                    at,
                    fi,
                );
            }
            lemma_try_fold_keeps(info.owners, 0, subgraphs, step, inv);
        } else {
            let step = explicit_interface_step(o.names, info, field);
            assert forall|s: Seq<SubgraphView>, k: int|
                0 <= k < apps.len() && inv(s) && (#[trigger] step(s, apps[k])) is Ok implies inv(
                step(s, apps[k])->Ok_0,
            ) by {
                match apps[k].graph {
                    None => {},
                    Some(graph) => {
                        lemma_resolve(o.names, s, graph);
                        let i = resolve(o.names, s, graph)->Ok_0;
                        let kind = interface_destination(
                            s[i].schema,
                            info.owners,
                            graph,
                            info.name,
                        )->Ok_0;
                        lemma_listed_owner(o, info, graph);
                        lemma_field_edit(
                            o,
                            s,
                            i,
                            info.name,
                            kind,
                            field,
                            false,
                            apps[k],
                            graph,
                            at,
                            fi,
                        );
                    },
                }
            }
            lemma_try_fold_keeps(apps, 0, subgraphs, step, inv);
        }
    }
}

/// Populating the interfaces leaves the registry accounted for.
pub proof fn lemma_interface_content(
    o: Origin,
    subgraphs: Seq<SubgraphView>,
    infos: Seq<TypeInfoView>,
)
    requires
        all_traced(o, subgraphs),
        records_ok(o, infos),
    ensures
        interface_content(o.supergraph, o.specs.join, o.names, subgraphs, infos) matches Ok(r)
            ==> all_traced(o, r),
{
    if interface_content(o.supergraph, o.specs.join, o.names, subgraphs, infos) is Ok {
        let field_directive = join_directive(o, "field"@);
        let implements_directive = versioned_directive(
            o.supergraph,
            o.specs.join,
            "implements"@,
            2,
        )->Ok_0->0;
        let step = interface_type_step(
            o.supergraph,
            o.names,
            field_directive,
            implements_directive,
        );
        let inv = |s: Seq<SubgraphView>| all_traced(o, s);
        assert forall|s: Seq<SubgraphView>, k: int|
            0 <= k < infos.len() && inv(s) && (#[trigger] step(s, infos[k])) is Ok implies inv(
            step(s, infos[k])->Ok_0,
        ) by {
            let info = infos[k];
            assert(info_ok(o, info));
            lemma_type_index(o.supergraph, info.name);
            let at = o.supergraph.locate(info.name, TypeKind::Interface)->Ok_0;
            let t = o.supergraph.types[at];
            lemma_interface_implements_fold(o, implements_directive, info, t.directives, s);
            let implemented = try_fold(
                t.directives,
                0,
                s,
                interface_implements_step(o.names, implements_directive, info),
            )->Ok_0;
            let field_step = interface_field_step(o.names, field_directive, info);
            assert forall|s2: Seq<SubgraphView>, fi: int|
                0 <= fi < t.fields.len() && inv(s2) && (#[trigger] field_step(s2, t.fields[fi]))
                    is Ok implies inv(field_step(s2, t.fields[fi])->Ok_0) by {
                lemma_interface_field(o, info, s2, at, fi);
            }
            lemma_try_fold_keeps(t.fields, 0, implemented, field_step, inv);
        }
        lemma_try_fold_keeps(infos, 0, subgraphs, step, inv);
    }
}

/// Whether `after` has no member that `before` lacks, but possibly members of
/// `owner` that are among `allowed`.
pub open spec fn new_members_among(
    before: SchemaView,
    after: SchemaView,
    owner: Seq<char>,
    allowed: Seq<Seq<char>>,
) -> bool {
    forall|o: Seq<char>, m: Seq<char>| #[trigger]
        has_member(after, o, m) ==> has_member(before, o, m) || (o == owner && allowed.contains(m))
}

/// Giving a union the members that a service can have brings members of the
/// union only, and only such as the union lists.
pub proof fn lemma_fan_out_fold(
    start: SchemaView,
    s: SchemaView,
    name: Seq<char>,
    members: Seq<Seq<char>>,
    from: int,
)
    requires
        0 <= from,
        new_members_among(start, s, name, members),
    ensures
        try_fold(members, from, s, fan_out_step(name)) matches Ok(r) ==> new_members_among(
            start,
            r,
            name,
            members,
        ),
    decreases members.len() - from,
{
    if from < members.len() {
        let member = members[from];
        if s.defines(member) {
            if s.insert_member(name, member) is Ok {
                let next = s.insert_member(name, member)->Ok_0;
                lemma_insert_member_members(s, name, member);
                assert forall|o: Seq<char>, m: Seq<char>| #[trigger]
                    has_member(next, o, m) implies has_member(start, o, m) || (o == name
                    && members.contains(m)) by {
                    if !(o == name && m == member) {
                        assert(has_member(s, o, m));
                    }
                }
                lemma_fan_out_fold(start, next, name, members, from + 1);
            }
        } else {
            lemma_fan_out_fold(start, s, name, members, from + 1);
        }
    }
}

/// Populating the unions leaves the registry accounted for.
pub proof fn lemma_union_content(o: Origin, subgraphs: Seq<SubgraphView>, infos: Seq<TypeInfoView>)
    requires
        all_traced(o, subgraphs),
        records_ok(o, infos),
    ensures
        union_content(o.supergraph, o.specs.join, o.names, subgraphs, infos) matches Ok(r)
            ==> all_traced(o, r),
{
    if union_content(o.supergraph, o.specs.join, o.names, subgraphs, infos) is Ok {
        let member_directive = later_directive(o, "unionMember"@, 3);
        let step = union_type_step(o.supergraph, o.names, member_directive);
        let inv = |s: Seq<SubgraphView>| all_traced(o, s);
        assert forall|s: Seq<SubgraphView>, k: int|
            0 <= k < infos.len() && inv(s) && (#[trigger] step(s, infos[k])) is Ok implies inv(
            step(s, infos[k])->Ok_0,
        ) by {
            let info = infos[k];
            assert(info_ok(o, info));
            lemma_type_index(o.supergraph, info.name);
            let at = o.supergraph.locate(info.name, TypeKind::Union)->Ok_0;
            let t = o.supergraph.types[at];
            let apps = optional_applications(
                t.directives,
                member_directive,
                target_decoder("member"@),
            )->Ok_0;
            if apps.len() == 0 {
                let inner = implicit_union_step(o.names, info.name, t.members);
                assert forall|s2: Seq<SubgraphView>, j: int|
                    0 <= j < info.owners.len() && inv(s2) && (#[trigger] inner(s2, info.owners[j]))
                        is Ok implies inv(inner(s2, info.owners[j])->Ok_0) by {
                    let graph = info.owners[j].0;
                    lemma_resolve(o.names, s2, graph);
                    let i = resolve(o.names, s2, graph)->Ok_0;
                    let schema = s2[i].schema;
                    lemma_fan_out_fold(schema, schema, info.name, t.members, 0);
                    let after = try_fold(t.members, 0, schema, fan_out_step(info.name))->Ok_0;
                    assert(owns(o, info.name, info.owners[j].0));
                    let result = with_schema(s2, i, after);
                    assert forall|x: int| 0 <= x < result.len() implies schema_traced(
                        o,
                        (#[trigger] result[x]).name,
                        result[x].schema,
                    ) by {
                        assert(schema_traced(o, s2[x].name, s2[x].schema));
                        if x == i {
                            assert forall|ow: Seq<char>, m: Seq<char>| #[trigger]
                                has_member(after, ow, m) implies traced(o, s2[i].name, ow, m) by {
                                if !has_member(schema, ow, m) {
                                    assert(member_reaches(o, t, m, graph));
                                    assert(type_gives(o, t, m, graph));
                                    assert(gives(o, info.name, m, graph));
                                    assert(traced_by(o, s2[i].name, info.name, m, graph));
                                }
                            }
                        }
                    }
                }
                lemma_try_fold_keeps(info.owners, 0, s, inner, inv);
            } else {
                let inner = explicit_union_step(o.names, info);
                assert forall|s2: Seq<SubgraphView>, j: int|
                    0 <= j < apps.len() && inv(s2) && (#[trigger] inner(s2, apps[j]))
                        is Ok implies inv(inner(s2, apps[j])->Ok_0) by {
                    let app = apps[j];
                    lemma_resolve(o.names, s2, app.graph);
                    let i = resolve(o.names, s2, app.graph)->Ok_0;
                    lemma_listed_owner(o, info, app.graph);
                    lemma_insert_member_members(s2[i].schema, info.name, app.target);
                    assert(apps[j] == (TargetArgumentsView {
                        graph: app.graph,
                        target: app.target,
                    }));
                    assert(member_reaches(o, t, app.target, app.graph));
                    assert(type_gives(o, t, app.target, app.graph));
                    assert(gives(o, info.name, app.target, app.graph));
                    assert(traced_by(o, s2[i].name, info.name, app.target, app.graph));
                    lemma_one_new_traced(
                        o,
                        s2,
                        i,
                        s2[i].schema.insert_member(info.name, app.target)->Ok_0,
                        info.name,
                        app.target,
                    );
                }
                lemma_try_fold_keeps(apps, 0, s, inner, inv);
            }
        }
        lemma_try_fold_keeps(infos, 0, subgraphs, step, inv);
    }
}

/// Giving an enum one of its values leaves the registry accounted for.
pub proof fn lemma_enum_value(
    o: Origin,
    info: TypeInfoView,
    subgraphs: Seq<SubgraphView>,
    at: int,
    vi: int,
)
    requires
        all_traced(o, subgraphs),
        info_ok(o, info),
        0 <= at < o.supergraph.types.len(),
        o.supergraph.types[at].name == info.name,
        0 <= vi < o.supergraph.types[at].values.len(),
    ensures
        enum_value_step(o.names, later_directive(o, "enumValue"@, 3), info)(
            subgraphs,
            o.supergraph.types[at].values[vi],
        ) matches Ok(r) ==> all_traced(o, r),
{
    let t = o.supergraph.types[at];
    let value = t.values[vi];
    let found = optional_applications(
        value.directives,
        later_directive(o, "enumValue"@, 3),
        graph_decoder(),
    );
    if found is Ok {
        let graphs = found->Ok_0;
        let inv = |s: Seq<SubgraphView>| all_traced(o, s);
        if graphs.len() == 0 {
            let step = implicit_value_step(o.names, info.name, value.name);
            assert forall|s: Seq<SubgraphView>, k: int|
                0 <= k < info.owners.len() && inv(s) && (#[trigger] step(s, info.owners[k]))
                    is Ok implies inv(step(s, info.owners[k])->Ok_0) by {
                let graph = info.owners[k].0;
                lemma_resolve(o.names, s, graph);
                let i = resolve(o.names, s, graph)->Ok_0;
                assert(owns(o, info.name, info.owners[k].0));
                lemma_insert_enum_value_members(s[i].schema, info.name, value.name);
                assert(t.values[vi].name == value.name && value_reaches(
                    o,
                    t.values[vi].directives,
                    graph,
                ));
                assert(type_gives(o, t, value.name, graph));
                assert(gives(o, info.name, value.name, graph));
                assert(traced_by(o, s[i].name, info.name, value.name, graph));
                lemma_one_new_traced(
                    o,
                    s,
                    i,
                    s[i].schema.insert_enum_value(info.name, value.name)->Ok_0,
                    info.name,
                    value.name,
                );
            }
            lemma_try_fold_keeps(info.owners, 0, subgraphs, step, inv);
        } else {
            let step = explicit_value_step(o.names, info, value.name);
            assert forall|s: Seq<SubgraphView>, k: int|
                0 <= k < graphs.len() && inv(s) && (#[trigger] step(s, graphs[k]))
                    is Ok implies inv(step(s, graphs[k])->Ok_0) by {
                let graph = graphs[k];
                lemma_resolve(o.names, s, graph);
                let i = resolve(o.names, s, graph)->Ok_0;
                lemma_listed_owner(o, info, graph);
                lemma_insert_enum_value_members(s[i].schema, info.name, value.name);
                assert(graphs.contains(graph));
                assert(t.values[vi].name == value.name && value_reaches(
                    o,
                    t.values[vi].directives,
                    graph,
                ));
                assert(type_gives(o, t, value.name, graph));
                assert(gives(o, info.name, value.name, graph));
                assert(traced_by(o, s[i].name, info.name, value.name, graph));
                lemma_one_new_traced(
                    o,
                    s,
                    i,
                    s[i].schema.insert_enum_value(info.name, value.name)->Ok_0,
                    info.name,
                    value.name,
                );
            }
            lemma_try_fold_keeps(graphs, 0, subgraphs, step, inv);
        }
    }
}

/// Populating the enums leaves the registry accounted for.
pub proof fn lemma_enum_content(o: Origin, subgraphs: Seq<SubgraphView>, infos: Seq<TypeInfoView>)
    requires
        all_traced(o, subgraphs),
        records_ok(o, infos),
    ensures
        enum_content(o.supergraph, o.specs.join, o.names, subgraphs, infos) matches Ok(r)
            ==> all_traced(o, r),
{
    if enum_content(o.supergraph, o.specs.join, o.names, subgraphs, infos) is Ok {
        let value_directive = later_directive(o, "enumValue"@, 3);
        let step = enum_type_step(o.supergraph, o.names, value_directive);
        let inv = |s: Seq<SubgraphView>| all_traced(o, s);
        assert forall|s: Seq<SubgraphView>, k: int|
            0 <= k < infos.len() && inv(s) && (#[trigger] step(s, infos[k])) is Ok implies inv(
            step(s, infos[k])->Ok_0,
        ) by {
            let info = infos[k];
            assert(info_ok(o, info));
            lemma_type_index(o.supergraph, info.name);
            let at = o.supergraph.locate(info.name, TypeKind::Enum)->Ok_0;
            let t = o.supergraph.types[at];
            let value_step = enum_value_step(o.names, value_directive, info);
            assert forall|s2: Seq<SubgraphView>, vi: int|
                0 <= vi < t.values.len() && inv(s2) && (#[trigger] value_step(s2, t.values[vi]))
                    is Ok implies inv(value_step(s2, t.values[vi])->Ok_0) by {
                lemma_enum_value(o, info, s2, at, vi);
            }
            lemma_try_fold_keeps(t.values, 0, s, value_step, inv);
        }
        lemma_try_fold_keeps(infos, 0, subgraphs, step, inv);
    }
}

/// An input field that reaches a service and is given to it, under a type
/// that the service owns, leaves the registry accounted for.
pub proof fn lemma_input_edit(
    o: Origin,
    subgraphs: Seq<SubgraphView>,
    i: int,
    owner: Seq<char>,
    field: InputValueView,
    app: FieldArgumentsView,
    graph: Seq<char>,
    at: int,
    fi: int,
)
    requires
        all_traced(o, subgraphs),
        0 <= i < subgraphs.len(),
        lookup(o.names, graph) == Some(subgraphs[i].name),
        owns(o, owner, graph),
        0 <= at < o.supergraph.types.len(),
        o.supergraph.types[at].name == owner,
        0 <= fi < o.supergraph.types[at].input_fields.len(),
        o.supergraph.types[at].input_fields[fi] == field,
        field_reaches(o, field.directives, graph),
        subgraphs[i].schema.add_subgraph_input_field(owner, field, app) is Ok,
    ensures
        all_traced(
            o,
            with_schema(
                subgraphs,
                i,
                subgraphs[i].schema.add_subgraph_input_field(owner, field, app)->Ok_0,
            ),
        ),
{
    let schema = subgraphs[i].schema;
    let f = subgraph_input_field(field, app)->Ok_0;
    lemma_insert_input_field_members(schema, owner, f);
    let t = o.supergraph.types[at];
    assert(t.input_fields[fi].name == field.name && field_reaches(
        o,
        t.input_fields[fi].directives,
        graph,
    ));
    assert(type_gives(o, t, field.name, graph));
    assert(gives(o, owner, field.name, graph));
    assert(traced_by(o, subgraphs[i].name, owner, field.name, graph));
    lemma_one_new_traced(
        o,
        subgraphs,
        i,
        schema.insert_input_field(owner, f)->Ok_0,
        owner,
        field.name,
    );
}

/// Giving an input object one of its fields leaves the registry accounted
/// for.
pub proof fn lemma_input_field(
    o: Origin,
    info: TypeInfoView,
    subgraphs: Seq<SubgraphView>,
    at: int,
    fi: int,
)
    requires
        all_traced(o, subgraphs),
        info_ok(o, info),
        0 <= at < o.supergraph.types.len(),
        o.supergraph.types[at].name == info.name,
        0 <= fi < o.supergraph.types[at].input_fields.len(),
    ensures
        input_field_step(o.names, join_directive(o, "field"@), info)(
            subgraphs,
            o.supergraph.types[at].input_fields[fi],
        ) matches Ok(r) ==> all_traced(o, r),
{
    let field = o.supergraph.types[at].input_fields[fi];
    let found = applications(field.directives, join_directive(o, "field"@), field_decoder());
    if found is Ok {
        let apps = found->Ok_0;
        let inv = |s: Seq<SubgraphView>| all_traced(o, s);
        if apps.len() == 0 {
            let step = implicit_input_step(o.names, info.name, field);
            assert forall|s: Seq<SubgraphView>, k: int|
                0 <= k < info.owners.len() && inv(s) && (#[trigger] step(s, info.owners[k]))
                    is Ok implies inv(step(s, info.owners[k])->Ok_0) by {
                let graph = info.owners[k].0;
                lemma_resolve(o.names, s, graph);
                let i = resolve(o.names, s, graph)->Ok_0;
                assert(owns(o, info.name, info.owners[k].0));
                lemma_input_edit(
                    o,
                    s,
                    i,
                    info.name,
                    field,
                    FieldArgumentsView::none(),
                    graph,
                    at,
                    fi,
                );
            }
            lemma_try_fold_keeps(info.owners, 0, subgraphs, step, inv);
        } else {
            let step = explicit_input_step(o.names, info, field);
            assert forall|s: Seq<SubgraphView>, k: int|
                0 <= k < apps.len() && inv(s) && (#[trigger] step(s, apps[k])) is Ok implies inv(
                step(s, apps[k])->Ok_0,
            ) by {
                match apps[k].graph {
                    None => {},
                    Some(graph) => {
                        lemma_resolve(o.names, s, graph);
                        let i = resolve(o.names, s, graph)->Ok_0;
                        lemma_listed_owner(o, info, graph);
                        lemma_input_edit(o, s, i, info.name, field, apps[k], graph, at, fi);
                    },
                }
            }
            lemma_try_fold_keeps(apps, 0, subgraphs, step, inv);
        }
    }
}

/// Populating the input objects leaves the registry accounted for.
pub proof fn lemma_input_content(o: Origin, subgraphs: Seq<SubgraphView>, infos: Seq<TypeInfoView>)
    requires
        all_traced(o, subgraphs),
        records_ok(o, infos),
    ensures
        input_content(o.supergraph, o.specs.join, o.names, subgraphs, infos) matches Ok(r)
            ==> all_traced(o, r),
{
    if input_content(o.supergraph, o.specs.join, o.names, subgraphs, infos) is Ok {
        let field_directive = join_directive(o, "field"@);
        let step = input_type_step(o.supergraph, o.names, field_directive);
        let inv = |s: Seq<SubgraphView>| all_traced(o, s);
        assert forall|s: Seq<SubgraphView>, k: int|
            0 <= k < infos.len() && inv(s) && (#[trigger] step(s, infos[k])) is Ok implies inv(
            step(s, infos[k])->Ok_0,
        ) by {
            let info = infos[k];
            assert(info_ok(o, info));
            lemma_type_index(o.supergraph, info.name);
            let at = o.supergraph.locate(info.name, TypeKind::InputObject)->Ok_0;
            let t = o.supergraph.types[at];
            let field_step = input_field_step(o.names, field_directive, info);
            assert forall|s2: Seq<SubgraphView>, fi: int|
                0 <= fi < t.input_fields.len() && inv(s2) && (#[trigger] field_step(
                    s2,
                    t.input_fields[fi],
                )) is Ok implies inv(field_step(s2, t.input_fields[fi])->Ok_0) by {
                lemma_input_field(o, info, s2, at, fi);
            }
            lemma_try_fold_keeps(t.input_fields, 0, s, field_step, inv);
        }
        lemma_try_fold_keeps(infos, 0, subgraphs, step, inv);
    }
}

/// Directive definitions bring no member.
pub proof fn lemma_definitions_members(
    start: SchemaView,
    s: SchemaView,
    definitions: Seq<DirectiveDefinitionView>,
    from: int,
)
    requires
        0 <= from,
        no_new_member(start, s),
    ensures
        try_fold(definitions, from, s, definition_step()) matches Ok(r) ==> no_new_member(start, r),
    decreases definitions.len() - from,
{
    if from < definitions.len() {
        if s.insert_directive_definition(definitions[from]) is Ok {
            let next = s.insert_directive_definition(definitions[from])->Ok_0;
            lemma_insert_directive_definition_members(s, definitions[from]);
            lemma_no_new_chain(start, s, next);
            lemma_definitions_members(start, next, definitions, from + 1);
        }
    }
}

/// Giving the services the directive definitions and pruning them leaves
/// the registry accounted for.
pub proof fn lemma_finish(
    o: Origin,
    subgraphs: Seq<SubgraphView>,
    definitions: Seq<DirectiveDefinitionView>,
)
    requires
        all_traced(o, subgraphs),
    ensures
        finish(subgraphs, definitions) matches Ok(r) ==> all_traced(o, r),
{
    let step = finish_step(definitions);
    let inv = |done: Seq<SubgraphView>| all_traced(o, done);
    assert forall|done: Seq<SubgraphView>, k: int|
        0 <= k < subgraphs.len() && inv(done) && (#[trigger] step(done, subgraphs[k]))
            is Ok implies inv(step(done, subgraphs[k])->Ok_0) by {
        let subgraph = subgraphs[k];
        let schema = finish_schema(subgraph.schema, definitions)->Ok_0;
        let defined = try_fold(definitions, 0, subgraph.schema, definition_step())->Ok_0;
        lemma_definitions_members(subgraph.schema, subgraph.schema, definitions, 0);
        lemma_prune_members(defined);
        lemma_no_new_chain(subgraph.schema, defined, schema);
        let after = done.push(SubgraphView { schema, ..subgraph });
        assert(schema_traced(o, subgraphs[k].name, subgraphs[k].schema));
        assert forall|x: int| 0 <= x < after.len() implies schema_traced(
            o,
            (#[trigger] after[x]).name,
            after[x].schema,
        ) by {
            if x < done.len() {
                assert(schema_traced(o, done[x].name, done[x].schema));
            } else {
                assert forall|ow: Seq<char>, m: Seq<char>| #[trigger]
                    has_member(schema, ow, m) implies traced(o, subgraph.name, ow, m) by {
                    assert(has_member(subgraph.schema, ow, m));
                }
            }
        }
    }
    lemma_try_fold_keeps(subgraphs, 0, Seq::<SubgraphView>::empty(), step, inv);
}

/// Populating the services leaves the registry accounted for.
pub proof fn lemma_populate(o: Origin, subgraphs: Seq<SubgraphView>)
    requires
        all_traced(o, subgraphs),
    ensures
        populate(o.supergraph, o.specs, o.names, subgraphs) matches Ok(r) ==> all_traced(o, r),
{
    if populate(o.supergraph, o.specs, o.names, subgraphs) is Ok {
        lemma_scaffold(o, subgraphs);
        let st = scaffold(o.supergraph, o.specs, o.names, subgraphs)->Ok_0;
        lemma_object_content(o, st.subgraphs, st.infos.object_types);
        let s1 = object_content(
            o.supergraph,
            o.specs.join,
            o.names,
            st.subgraphs,
            st.infos.object_types,
        )->Ok_0;
        lemma_interface_content(o, s1, st.infos.interface_types);
        let s2 = interface_content(
            o.supergraph,
            o.specs.join,
            o.names,
            s1,
            st.infos.interface_types,
        )->Ok_0;
        lemma_union_content(o, s2, st.infos.union_types);
        let s3 = union_content(o.supergraph, o.specs.join, o.names, s2, st.infos.union_types)->Ok_0;
        lemma_enum_content(o, s3, st.infos.enum_types);
        let s4 = enum_content(o.supergraph, o.specs.join, o.names, s3, st.infos.enum_types)->Ok_0;
        lemma_input_content(o, s4, st.infos.input_object_types);
        let s5 = input_content(
            o.supergraph,
            o.specs.join,
            o.names,
            s4,
            st.infos.input_object_types,
        )->Ok_0;
        lemma_finish(o, s5, executable_definitions(o.supergraph));
    }
}

/// Whether `after` has no member that `before` lacks, but possibly members
/// that the federation operations bring to a schema whose query root is
/// `query`.
pub open spec fn operation_members_only(
    before: SchemaView,
    after: SchemaView,
    query: Seq<char>,
) -> bool {
    forall|o: Seq<char>, m: Seq<char>| #[trigger]
        has_member(after, o, m) ==> has_member(before, o, m) || is_operation_member_under(
            query,
            o,
            m,
        )
}

/// Chained, "operation members only" stays so.
pub proof fn lemma_operation_members_chain(
    a: SchemaView,
    b: SchemaView,
    c: SchemaView,
    query: Seq<char>,
)
    requires
        operation_members_only(a, b, query),
        operation_members_only(b, c, query),
    ensures
        operation_members_only(a, c, query),
{
    assert forall|o: Seq<char>, m: Seq<char>| #[trigger] has_member(c, o, m) implies has_member(
        a,
        o,
        m,
    ) || is_operation_member_under(query, o, m) by {
        if !is_operation_member_under(query, o, m) {
            assert(has_member(b, o, m));
        }
    }
}

/// Filling the union of entities brings members of `_Entity` only.
pub proof fn lemma_entity_members(
    start: SchemaView,
    s: SchemaView,
    members: Seq<Seq<char>>,
    from: int,
    query: Seq<char>,
)
    requires
        0 <= from,
        operation_members_only(start, s, query),
    ensures
        try_fold(members, from, s, entity_step()) matches Ok(r) ==> operation_members_only(
            start,
            r,
            query,
        ),
    decreases members.len() - from,
{
    if from < members.len() {
        if s.insert_member("_Entity"@, members[from]) is Ok {
            let next = s.insert_member("_Entity"@, members[from])->Ok_0;
            lemma_insert_member_members(s, "_Entity"@, members[from]);
            lemma_operation_members_chain(start, s, next, query);
            lemma_entity_members(start, next, members, from + 1, query);
        }
    }
}

/// The federation operations bring their own members only: the field `sdl`
/// of `_Service`, the members of `_Entity`, and the fields `_service` and
/// `_entities` of the query root. They leave a query root as it is.
pub proof fn lemma_operations_members(s: SchemaView)
    ensures
        s.add_federation_operations() matches Ok(a) ==> a.query_type is Some && (s.query_type
            is Some ==> a.query_type == s.query_type) && operation_members_only(
            s,
            a,
            a.query_type->0,
        ),
{
    if s.add_federation_operations() is Ok {
        let a1 = s.insert_shell("_Any"@, TypeKind::Scalar, Seq::empty())->Ok_0;
        let a2 = a1.insert_shell("_Service"@, TypeKind::Object, Seq::empty())->Ok_0;
        let s1 = a2.insert_field("_Service"@, TypeKind::Object, sdl_field())->Ok_0;
        let members = entity_names(s1);
        let s2 = s1.add_entity_union(members)->Ok_0;
        let s3 = s2.ensure_query_root()->Ok_0;
        lemma_service_types(s, "Query"@);
        lemma_entity_union(s1, members, "Query"@);
        lemma_query_root(s2, "_Entity"@);
        let query = s3.query_type->0;
        lemma_root_fields(s3, query, members.len() > 0, "_Entity"@);
        lemma_insert_shell_members(s, "_Any"@, TypeKind::Scalar, Seq::empty());
        lemma_insert_shell_members(a1, "_Service"@, TypeKind::Object, Seq::empty());
        lemma_insert_field_members(a2, "_Service"@, TypeKind::Object, sdl_field());
        lemma_operation_members_chain(s, a1, a2, query);
        lemma_operation_members_chain(s, a2, s1, query);
        if members.len() > 0 {
            let e = s1.insert_shell("_Entity"@, TypeKind::Union, Seq::empty())->Ok_0;
            lemma_insert_shell_members(s1, "_Entity"@, TypeKind::Union, Seq::empty());
            lemma_operation_members_chain(s, s1, e, query);
            lemma_entity_members(s, e, members, 0, query);
        }
        if s2.query_type is None {
            let q = s2.insert_shell("Query"@, TypeKind::Object, Seq::empty())->Ok_0;
            lemma_insert_shell_members(s2, "Query"@, TypeKind::Object, Seq::empty());
            lemma_insert_root_members(q, RootKind::Query, "Query"@);
            lemma_operation_members_chain(s, s2, q, query);
            lemma_operation_members_chain(s, q, s3, query);
        }
        let cleared = s3.remove_field(query, "_entities"@);
        lemma_remove_field_members(s3, query, "_entities"@);
        lemma_operation_members_chain(s, s3, cleared, query);
        let with_entities = if members.len() > 0 {
            cleared.insert_field(query, TypeKind::Object, entities_field())->Ok_0
        } else {
            cleared
        };
        if members.len() > 0 {
            lemma_insert_field_members(cleared, query, TypeKind::Object, entities_field());
        }
        lemma_operation_members_chain(s, cleared, with_entities, query);
        let a = with_entities.insert_field(query, TypeKind::Object, service_field())->Ok_0;
        lemma_insert_field_members(with_entities, query, TypeKind::Object, service_field());
        lemma_operation_members_chain(s, with_entities, a, query);
    }
}

/// Completing the services leaves every member of every type accounted for.
pub proof fn lemma_complete(o: Origin, subgraphs: Seq<SubgraphView>, validate: bool)
    requires
        all_members_accounted(o, subgraphs),
    ensures
        complete(o.names, subgraphs, validate) matches Ok(r) ==> all_members_accounted(o, r),
{
    let step = complete_step(o.names, validate);
    let inv = |s: Seq<SubgraphView>| all_members_accounted(o, s);
    assert forall|s: Seq<SubgraphView>, k: int|
        0 <= k < o.names.len() && inv(s) && (#[trigger] step(s, o.names[k])) is Ok implies inv(
        step(s, o.names[k])->Ok_0,
    ) by {
        let graph = o.names[k].0;
        lemma_resolve(o.names, s, graph);
        let i = resolve(o.names, s, graph)->Ok_0;
        let schema = complete_schema(s[i], validate)->Ok_0;
        lemma_operations_members(s[i].schema);
        let after = with_schema(s, i, schema);
        assert forall|x: int| 0 <= x < after.len() implies schema_members_accounted(
            o,
            (#[trigger] after[x]).name,
            after[x].schema,
        ) by {
            assert(schema_members_accounted(o, s[x].name, s[x].schema));
            if x == i {
                assert forall|ow: Seq<char>, m: Seq<char>| #[trigger]
                    has_member(schema, ow, m) implies traced(o, s[i].name, ow, m)
                    || is_operation_member(schema, ow, m) by {
                    if !is_operation_member_under(schema.query_type->0, ow, m) {
                        assert(has_member(s[i].schema, ow, m));
                    }
                }
            }
        }
    }
    lemma_try_fold_keeps(o.names, 0, subgraphs, step, inv);
}

/// Whether every schema of the registry is the federation preamble.
pub open spec fn all_preamble(subgraphs: Seq<SubgraphView>) -> bool {
    forall|i: int|
        0 <= i < subgraphs.len() ==> (#[trigger] subgraphs[i]).schema
            == preamble()
}

/// The members of the preamble are the values of `link__Purpose`.
pub proof fn lemma_preamble_members(owner: Seq<char>, member: Seq<char>)
    requires
        has_member(preamble(), owner, member),
    ensures
        is_preamble_member(owner, member),
{
    let s = preamble();
    let i = choose|i: int|
        0 <= i < s.types.len() && (#[trigger] s.types[i]).name == owner && type_has(
            s.types[i],
            member,
        );
    let t = s.types[i];
    if i == 1 {
        assert(t == purpose_enum());
        assert(t.fields.len() == 0 && t.input_fields.len() == 0 && t.members.len() == 0);
        let j = choose|j: int| 0 <= j < t.values.len() && (#[trigger] t.values[j]).name == member;
        assert(j == 0 || j == 1);
    } else {
        assert(t.fields.len() == 0 && t.input_fields.len() == 0 && t.members.len() == 0
            && t.values.len() == 0);
    }
}

/// Seeding gives every service the preamble as its schema.
pub proof fn lemma_seed(supergraph: SchemaView, join: JoinSpecView)
    ensures
        seed(supergraph, join) matches Ok(r) ==> all_preamble(r.subgraphs),
{
    if seed(supergraph, join) is Ok {
        let graph_directive = required_directive(supergraph, join, "graph"@)->Ok_0;
        let t = graph_enum(supergraph, join)->Ok_0;
        let step = seed_step(graph_directive);
        let inv = |st: SeedView| all_preamble(st.subgraphs);
        assert forall|st: SeedView, k: int|
            0 <= k < t.values.len() && inv(st) && (#[trigger] step(st, t.values[k]))
                is Ok implies inv(step(st, t.values[k])->Ok_0) by {
            let value = t.values[k];
            let d = first_where(value.directives, applies(graph_directive))->0;
            let args = graph_arguments(value.directives[d])->Ok_0;
            let p = insertion_point(st.subgraphs, args.name);
            lemma_first_where(st.subgraphs, not_before(args.name));
            let after = step(st, value)->Ok_0.subgraphs;
            assert forall|x: int| 0 <= x < after.len() implies (#[trigger] after[x]).schema
                == preamble() by {
                if x < p {
                    assert(after[x] == st.subgraphs[x]);
                } else if x > p {
                    assert(after[x] == st.subgraphs[x - 1]);
                }
            }
        }
        let start = SeedView { subgraphs: Seq::empty(), names: Seq::empty() };
        lemma_try_fold_keeps(t.values, 0, start, step, inv);
    }
}

/// Where the services of `supergraph` are drawn from, once it has been
/// checked and the registry seeded.
pub open spec fn origin_of(supergraph: SchemaView) -> Origin {
    let specs = resolve_specs(supergraph)->Ok_0;
    Origin { supergraph, specs, names: seed(supergraph, specs.join)->Ok_0.names }
}

/// Ownership closure. In the services drawn from a supergraph, every field,
/// input field, enum value and union member of every type is accounted for:
/// the supergraph has a type of that name which the service owns by a
/// type-level application, and a type of that name with that member, which has
/// no application of its own or one that names the service; or the member is
/// a value of the preamble's `link__Purpose`, or one that the federation
/// operations bring: the field `sdl` of `_Service`, a member of `_Entity`, or
/// the field `_service` or `_entities` of the query root of that schema.
pub proof fn lemma_ownership_closure(
    supergraph: SchemaView,
    validate_extracted_subgraphs: Option<bool>,
)
    ensures
        extraction(supergraph, validate_extracted_subgraphs) matches Ok(subgraphs)
            ==> all_members_accounted(origin_of(supergraph), subgraphs),
{
    if extraction(supergraph, validate_extracted_subgraphs) is Ok {
        let o = origin_of(supergraph);
        let seeded = seed(supergraph, o.specs.join)->Ok_0;
        lemma_seed(supergraph, o.specs.join);
        assert forall|i: int| 0 <= i < seeded.subgraphs.len() implies schema_traced(
            o,
            (#[trigger] seeded.subgraphs[i]).name,
            seeded.subgraphs[i].schema,
        ) by {
            assert forall|ow: Seq<char>, m: Seq<char>| #[trigger]
                has_member(seeded.subgraphs[i].schema, ow, m) implies traced(
                o,
                seeded.subgraphs[i].name,
                ow,
                m,
            ) by {
                lemma_preamble_members(ow, m);
            }
        }
        lemma_populate(o, seeded.subgraphs);
        let populated = populate(supergraph, o.specs, o.names, seeded.subgraphs)->Ok_0;
        assert forall|i: int| 0 <= i < populated.len() implies schema_members_accounted(
            o,
            (#[trigger] populated[i]).name,
            populated[i].schema,
        ) by {
            assert(schema_traced(o, populated[i].name, populated[i].schema));
        }
        lemma_complete(o, populated, validation_wanted(validate_extracted_subgraphs));
    }
}

} // verus!
