//! The types of an extracted schema, by name: every guarded edit adds at most
//! the type that it is asked to add, so that every type of a service is a
//! type of the federation preamble or operations, or the shell of a supergraph
//! type that the service owns.
use crate::closure::lemma_filter_item;
use crate::edits::RootKind;
use crate::enums::{
    enum_content, enum_type_step, enum_value_step, explicit_value_step, implicit_value_step,
};
use crate::extract::{
    complete, complete_schema, complete_step, definition_step, executable_definitions,
    extraction, finish, finish_schema, finish_step, populate, validation_wanted,
};
use crate::federation::{interface_object_directive, key_directive, preamble};
use crate::fields::{subgraph_field, subgraph_input_field};
use crate::inputs::{
    explicit_input_step, implicit_input_step, input_content, input_field_step, input_type_step,
};
use crate::interfaces::{
    explicit_interface_step, implicit_interface_step, interface_content, interface_destination,
    interface_field_step, interface_implements_step, interface_type_step,
};
use crate::join::{JoinSpecView, target_arguments, FieldArgumentsView, TypeArgumentsView};
use crate::names::graphql_name_spec;
use crate::objects::{
    explicit_object_step, implicit_object_step, is_shareable, object_content, object_field_step,
    object_implements_step, object_type_step,
};
use crate::operations::{entities_field, entity_names, entity_step, sdl_field, service_field};
use crate::ordered::lookup;
use crate::ownership::{
    Origin, all_preamble, join_directive, lemma_resolve, lemma_seed, names_graph, origin_of, owns,
    type_applications_of,
};
use crate::provenance::{
    applications, field_decoder, graph_decoder, optional_applications, target_decoder,
    type_decoder,
};
use crate::scaffold::{
    ScaffoldView, ShellView, TypeInfoView, TypeInfosView, root_kind_of, scaffold, scaffold_step,
    scalar_step, seed, shell_step,
};
use crate::seqs::{lemma_try_fold_keeps, try_fold};
use crate::subgraphs::{resolve, with_schema, SubgraphView};
use crate::supergraph::{is_spec_type, required_directive, versioned_directive};
use crate::surface::{
    lemma_entity_surface, lemma_operations_any, lemma_resolve_kept, surface_consistent,
};
use crate::unions::{
    explicit_union_step, fan_out_step, implicit_union_step, union_content, union_type_step,
};
use crate::prune::{empty_shells, strip_type, type_elsewhere};
use crate::schema::{
    DirectiveDefinitionView, DirectiveView, FieldView, InputValueView, SchemaView,
    TypeDefinitionView, TypeKind,
};
use crate::seqs::{first_where, lemma_first_where};
use crate::surface::lemma_type_index;
use vstd::prelude::*;

verus! {

/// Whether `after` has no type that `before` lacks.
pub open spec fn no_new_type(before: SchemaView, after: SchemaView) -> bool {
    forall|name: Seq<char>| #[trigger] after.has_type(name) ==> before.has_type(name)
}

/// Whether `after` has no type that `before` lacks, but possibly a type named
/// `name`.
pub open spec fn one_new_type(before: SchemaView, after: SchemaView, name: Seq<char>) -> bool {
    forall|n: Seq<char>| #[trigger] after.has_type(n) ==> before.has_type(n) || n == name
}

/// Whether the two schemas have types of the same names, position by
/// position.
pub open spec fn same_type_names(a: SchemaView, b: SchemaView) -> bool {
    &&& a.types.len() == b.types.len()
    &&& forall|i: int| 0 <= i < a.types.len() ==> (#[trigger] a.types[i]).name == b.types[i].name
}

/// Schemas with types of the same names have the same types, by name.
pub proof fn lemma_same_names_no_new(a: SchemaView, b: SchemaView)
    requires
        same_type_names(a, b),
    ensures
        no_new_type(a, b),
{
    assert forall|name: Seq<char>| #[trigger] b.has_type(name) implies a.has_type(name) by {
        let i = choose|i: int| 0 <= i < b.types.len() && (#[trigger] b.types[i]).name == name;
        assert(a.types[i].name == name);
    }
}

/// Chained, "no new type" stays "no new type".
pub proof fn lemma_no_new_type_chain(a: SchemaView, b: SchemaView, c: SchemaView)
    requires
        no_new_type(a, b),
        no_new_type(b, c),
    ensures
        no_new_type(a, c),
{
    assert forall|name: Seq<char>| #[trigger] c.has_type(name) implies a.has_type(name) by {
        assert(b.has_type(name));
    }
}

/// A schema in which one type is replaced by a type of the same name has no
/// new type.
pub proof fn lemma_update_no_new_type(s: SchemaView, i: int, t: TypeDefinitionView)
    requires
        0 <= i < s.types.len(),
        t.name == s.types[i].name,
    ensures
        no_new_type(s, s.with_type(i, t)),
{
    lemma_same_names_no_new(s, s.with_type(i, t));
}

/// A shell brings the type of its name.
pub proof fn lemma_insert_shell_types(
    s: SchemaView,
    name: Seq<char>,
    kind: TypeKind,
    directives: Seq<DirectiveView>,
)
    ensures
        s.insert_shell(name, kind, directives) matches Ok(a) ==> one_new_type(s, a, name),
{
    if s.insert_shell(name, kind, directives) is Ok {
        let a = s.insert_shell(name, kind, directives)->Ok_0;
        assert forall|n: Seq<char>| #[trigger] a.has_type(n) implies s.has_type(n) || n == name by {
            let i = choose|i: int| 0 <= i < a.types.len() && (#[trigger] a.types[i]).name == n;
            if i < s.types.len() {
                assert(s.types[i].name == n);
            }
        }
    }
}

/// A field brings no type.
pub proof fn lemma_insert_field_types(
    s: SchemaView,
    owner: Seq<char>,
    kind: TypeKind,
    field: FieldView,
)
    ensures
        s.insert_field(owner, kind, field) matches Ok(a) ==> no_new_type(s, a),
{
    if s.insert_field(owner, kind, field) is Ok {
        lemma_type_index(s, owner);
        let i = s.locate(owner, kind)->Ok_0;
        lemma_update_no_new_type(
            s,
            i,
            TypeDefinitionView { fields: s.types[i].fields.push(field), ..s.types[i] },
        );
    }
}

/// An input field brings no type.
pub proof fn lemma_insert_input_field_types(s: SchemaView, owner: Seq<char>, field: InputValueView)
    ensures
        s.insert_input_field(owner, field) matches Ok(a) ==> no_new_type(s, a),
{
    if s.insert_input_field(owner, field) is Ok {
        lemma_type_index(s, owner);
        let i = s.locate(owner, TypeKind::InputObject)->Ok_0;
        lemma_update_no_new_type(
            s,
            i,
            TypeDefinitionView { input_fields: s.types[i].input_fields.push(field), ..s.types[i] },
        );
    }
}

/// An enum value brings no type.
pub proof fn lemma_insert_enum_value_types(s: SchemaView, owner: Seq<char>, value: Seq<char>)
    ensures
        s.insert_enum_value(owner, value) matches Ok(a) ==> no_new_type(s, a),
{
    if s.insert_enum_value(owner, value) is Ok {
        lemma_type_index(s, owner);
        let a = s.insert_enum_value(owner, value)->Ok_0;
        lemma_same_names_no_new(s, a);
    }
}

/// A union member brings no type.
pub proof fn lemma_insert_member_types(s: SchemaView, owner: Seq<char>, member: Seq<char>)
    ensures
        s.insert_member(owner, member) matches Ok(a) ==> no_new_type(s, a),
{
    if s.insert_member(owner, member) is Ok {
        lemma_type_index(s, owner);
        let a = s.insert_member(owner, member)->Ok_0;
        lemma_same_names_no_new(s, a);
    }
}

/// An implemented interface brings no type.
pub proof fn lemma_insert_implements_types(
    s: SchemaView,
    owner: Seq<char>,
    kind: TypeKind,
    interface: Seq<char>,
)
    ensures
        s.insert_implements(owner, kind, interface) matches Ok(a) ==> no_new_type(s, a),
{
    if s.insert_implements(owner, kind, interface) is Ok {
        lemma_type_index(s, owner);
        let a = s.insert_implements(owner, kind, interface)->Ok_0;
        lemma_same_names_no_new(s, a);
    }
}

/// A directive on a type brings no type.
pub proof fn lemma_insert_type_directive_types(
    s: SchemaView,
    owner: Seq<char>,
    directive: DirectiveView,
)
    ensures
        s.insert_type_directive(owner, directive) matches Ok(a) ==> no_new_type(s, a),
{
    if s.insert_type_directive(owner, directive) is Ok {
        lemma_type_index(s, owner);
        let a = s.insert_type_directive(owner, directive)->Ok_0;
        lemma_same_names_no_new(s, a);
    }
}

/// A root operation brings no type.
pub proof fn lemma_insert_root_types(s: SchemaView, kind: RootKind, name: Seq<char>)
    ensures
        s.insert_root(kind, name) matches Ok(a) ==> no_new_type(s, a),
{
    if s.insert_root(kind, name) is Ok {
        lemma_same_names_no_new(s, s.insert_root(kind, name)->Ok_0);
    }
}

/// A directive definition brings no type.
pub proof fn lemma_insert_directive_definition_types(s: SchemaView, d: DirectiveDefinitionView)
    ensures
        s.insert_directive_definition(d) matches Ok(a) ==> no_new_type(s, a),
{
    if s.insert_directive_definition(d) is Ok {
        lemma_same_names_no_new(s, s.insert_directive_definition(d)->Ok_0);
    }
}

/// Removing fields brings no type.
pub proof fn lemma_remove_field_types(s: SchemaView, owner: Seq<char>, field: Seq<char>)
    ensures
        no_new_type(s, s.remove_field(owner, field)),
{
    lemma_type_index(s, owner);
    lemma_same_names_no_new(s, s.remove_field(owner, field));
}

/// Removing a type brings no type.
pub proof fn lemma_without_type_types(s: SchemaView, name: Seq<char>)
    ensures
        no_new_type(s, s.without_type(name)),
{
    let a = s.without_type(name);
    let kept = s.types.filter(type_elsewhere(name));
    assert forall|n: Seq<char>| #[trigger] a.has_type(n) implies s.has_type(n) by {
        let k = choose|k: int| 0 <= k < a.types.len() && (#[trigger] a.types[k]).name == n;
        lemma_filter_item(s.types, type_elsewhere(name), k);
        let i = choose|i: int| 0 <= i < s.types.len() && #[trigger] s.types[i] == kept[k];
        assert(a.types[k] == strip_type(name)(kept[k]));
        assert(s.types[i].name == n);
    }
}

/// Rounds of pruning bring no type.
pub proof fn lemma_prune_rounds_types(s: SchemaView, rounds: nat)
    ensures
        no_new_type(s, s.prune_rounds(rounds)),
    decreases rounds,
{
    if rounds > 0 {
        lemma_first_where(s.types, empty_shells());
        match first_where(s.types, empty_shells()) {
            None => {},
            Some(i) => {
                let next = s.without_type(s.types[i].name);
                lemma_without_type_types(s, s.types[i].name);
                lemma_prune_rounds_types(next, (rounds - 1) as nat);
                lemma_no_new_type_chain(s, next, next.prune_rounds((rounds - 1) as nat));
            },
        }
    }
}

/// Pruning brings no type.
pub proof fn lemma_prune_types(s: SchemaView)
    ensures
        no_new_type(s, s.prune()),
{
    lemma_prune_rounds_types(s, s.types.len());
}

/// Whether the name is that of a type of the federation preamble.
pub open spec fn is_preamble_type(name: Seq<char>) -> bool {
    name == "link__Import"@ || name == "link__Purpose"@ || name == "federation__FieldSet"@ || name
        == "federation__Scope"@
}

/// Whether the name is that of a type that the federation operations bring.
pub open spec fn is_operation_type(name: Seq<char>) -> bool {
    name == "_Any"@ || name == "_Service"@ || name == "_Entity"@ || name == "Query"@
}

/// Whether the value `graph` of the graph enumeration stands for the service
/// `service`, which owns the type `name`.
pub open spec fn owned_by(o: Origin, service: Seq<char>, name: Seq<char>, graph: Seq<char>) -> bool {
    lookup(o.names, graph) == Some(service) && owns(o, name, graph)
}

/// Whether the service `service` owns the type `name`.
pub open spec fn owned_here(o: Origin, service: Seq<char>, name: Seq<char>) -> bool {
    exists|graph: Seq<char>| #[trigger] owned_by(o, service, name, graph)
}

/// Whether every type of the schema is a type of the preamble or a type that
/// the service owns.
pub open spec fn schema_within(o: Origin, service: Seq<char>, schema: SchemaView) -> bool {
    forall|name: Seq<char>| #[trigger]
        schema.has_type(name) ==> is_preamble_type(name) || owned_here(o, service, name)
}

/// Whether every type of every service is a type of the preamble or a type
/// that the service owns.
pub open spec fn all_within(o: Origin, subgraphs: Seq<SubgraphView>) -> bool {
    forall|i: int|
        0 <= i < subgraphs.len() ==> schema_within(
            o,
            (#[trigger] subgraphs[i]).name,
            subgraphs[i].schema,
        )
}

/// Whether `after` holds the services of `before`, each with no new type.
pub open spec fn kept(before: Seq<SubgraphView>, after: Seq<SubgraphView>) -> bool {
    &&& after.len() == before.len()
    &&& forall|i: int|
        0 <= i < before.len() ==> (#[trigger] after[i]).name == before[i].name && no_new_type(
            before[i].schema,
            after[i].schema,
        )
}

/// Chained, "kept" stays "kept".
pub proof fn lemma_kept_chain(a: Seq<SubgraphView>, b: Seq<SubgraphView>, c: Seq<SubgraphView>)
    requires
        kept(a, b),
        kept(b, c),
    ensures
        kept(a, c),
{
    assert forall|i: int| 0 <= i < a.len() implies (#[trigger] c[i]).name == a[i].name
        && no_new_type(a[i].schema, c[i].schema) by {
        assert(b[i].name == a[i].name);
        lemma_no_new_type_chain(a[i].schema, b[i].schema, c[i].schema);
    }
}

/// A registry in which one service got a schema with no new type is kept.
pub proof fn lemma_kept_edit(
    start: Seq<SubgraphView>,
    s: Seq<SubgraphView>,
    i: int,
    schema: SchemaView,
)
    requires
        kept(start, s),
        0 <= i < s.len(),
        no_new_type(s[i].schema, schema),
    ensures
        kept(start, with_schema(s, i, schema)),
{
    let after = with_schema(s, i, schema);
    assert forall|j: int| 0 <= j < start.len() implies (#[trigger] after[j]).name == start[j].name
        && no_new_type(start[j].schema, after[j].schema) by {
        assert(s[j].name == start[j].name);
        if j == i {
            lemma_no_new_type_chain(start[j].schema, s[j].schema, schema);
        }
    }
}

/// A kept registry whose types were within the preamble and the owned types
/// has them within.
pub proof fn lemma_kept_within(o: Origin, a: Seq<SubgraphView>, b: Seq<SubgraphView>)
    requires
        all_within(o, a),
        kept(a, b),
    ensures
        all_within(o, b),
{
    assert forall|i: int| 0 <= i < b.len() implies schema_within(
        o,
        (#[trigger] b[i]).name,
        b[i].schema,
    ) by {
        assert(schema_within(o, a[i].name, a[i].schema));
        assert forall|name: Seq<char>| #[trigger] b[i].schema.has_type(name) implies is_preamble_type(
            name,
        ) || owned_here(o, b[i].name, name) by {
            assert(a[i].schema.has_type(name));
        }
    }
}

/// A field given to a service brings no type.
pub proof fn lemma_add_subgraph_field_types(
    s: SchemaView,
    owner: Seq<char>,
    kind: TypeKind,
    field: FieldView,
    shareable: bool,
    app: FieldArgumentsView,
)
    ensures
        s.add_subgraph_field(owner, kind, field, shareable, app) matches Ok(a) ==> no_new_type(
            s,
            a,
        ),
{
    if s.add_subgraph_field(owner, kind, field, shareable, app) is Ok {
        lemma_insert_field_types(s, owner, kind, subgraph_field(field, app, shareable)->Ok_0);
    }
}

/// An input field given to a service brings no type.
pub proof fn lemma_add_subgraph_input_field_types(
    s: SchemaView,
    owner: Seq<char>,
    field: InputValueView,
    app: FieldArgumentsView,
)
    ensures
        s.add_subgraph_input_field(owner, field, app) matches Ok(a) ==> no_new_type(s, a),
{
    if s.add_subgraph_input_field(owner, field, app) is Ok {
        lemma_insert_input_field_types(s, owner, subgraph_input_field(field, app)->Ok_0);
    }
}

/// Populating the objects keeps the registry.
pub proof fn lemma_object_content_kept(
    supergraph: SchemaView,
    join: JoinSpecView,
    names: Seq<(Seq<char>, Seq<char>)>,
    subgraphs: Seq<SubgraphView>,
    infos: Seq<TypeInfoView>,
)
    ensures
        object_content(supergraph, join, names, subgraphs, infos) matches Ok(r) ==> kept(
            subgraphs,
            r,
        ),
{
    if object_content(supergraph, join, names, subgraphs, infos) is Ok {
        let field_directive = required_directive(supergraph, join, "field"@)->Ok_0;
        let implements_directive = versioned_directive(supergraph, join, "implements"@, 2)->Ok_0->0;
        let step = object_type_step(supergraph, names, field_directive, implements_directive);
        let inv = |s: Seq<SubgraphView>| kept(subgraphs, s);
        assert forall|s: Seq<SubgraphView>, k: int|
            0 <= k < infos.len() && inv(s) && (#[trigger] step(s, infos[k])) is Ok implies inv(
            step(s, infos[k])->Ok_0,
        ) by {
            let info = infos[k];
            let at = supergraph.locate(info.name, TypeKind::Object)->Ok_0;
            let t = supergraph.types[at];
            let implements_step = object_implements_step(names, implements_directive, info);
            assert forall|s2: Seq<SubgraphView>, d: int|
                0 <= d < t.directives.len() && inv(s2) && (#[trigger] implements_step(
                    s2,
                    t.directives[d],
                )) is Ok implies inv(implements_step(s2, t.directives[d])->Ok_0) by {
                if t.directives[d].name == implements_directive {
                    let app = target_arguments(t.directives[d], "interface"@)->Ok_0;
                    lemma_resolve(names, s2, app.graph);
                    let i = resolve(names, s2, app.graph)->Ok_0;
                    let interface = graphql_name_spec(app.target)->Ok_0;
                    lemma_insert_implements_types(
                        s2[i].schema,
                        info.name,
                        TypeKind::Object,
                        interface,
                    );
                    lemma_kept_edit(
                        subgraphs,
                        s2,
                        i,
                        s2[i].schema.insert_implements(info.name, TypeKind::Object, interface)->Ok_0,
                    );
                }
            }
            lemma_try_fold_keeps(t.directives, 0, s, implements_step, inv);
            let implemented = try_fold(t.directives, 0, s, implements_step)->Ok_0;
            let field_step = object_field_step(names, field_directive, info);
            assert forall|s2: Seq<SubgraphView>, fi: int|
                0 <= fi < t.fields.len() && inv(s2) && (#[trigger] field_step(s2, t.fields[fi]))
                    is Ok implies inv(field_step(s2, t.fields[fi])->Ok_0) by {
                let field = t.fields[fi];
                let apps = applications(field.directives, field_directive, field_decoder())->Ok_0;
                if apps.len() == 0 {
                    let shareable = info.owners.len() > 1;
                    let inner = implicit_object_step(names, info.name, field, shareable);
                    assert forall|s3: Seq<SubgraphView>, j: int|
                        0 <= j < info.owners.len() && inv(s3) && (#[trigger] inner(
                            s3,
                            info.owners[j],
                        )) is Ok implies inv(inner(s3, info.owners[j])->Ok_0) by {
                        lemma_resolve(names, s3, info.owners[j].0);
                        let i = resolve(names, s3, info.owners[j].0)->Ok_0;
                        lemma_add_subgraph_field_types(
                            s3[i].schema,
                            info.name,
                            TypeKind::Object,
                            field,
                            shareable,
                            FieldArgumentsView::none(),
                        );
                        lemma_kept_edit(
                            subgraphs,
                            s3,
                            i,
                            s3[i].schema.add_subgraph_field(
                                info.name,
                                TypeKind::Object,
                                field,
                                shareable,
                                FieldArgumentsView::none(),
                            )->Ok_0,
                        );
                    }
                    lemma_try_fold_keeps(info.owners, 0, s2, inner, inv);
                } else {
                    let shareable = is_shareable(apps);
                    let inner = explicit_object_step(names, info, field, shareable);
                    assert forall|s3: Seq<SubgraphView>, j: int|
                        0 <= j < apps.len() && inv(s3) && (#[trigger] inner(s3, apps[j]))
                            is Ok implies inv(inner(s3, apps[j])->Ok_0) by {
                        match apps[j].graph {
                            None => {},
                            Some(graph) => {
                                lemma_resolve(names, s3, graph);
                                let i = resolve(names, s3, graph)->Ok_0;
                                lemma_add_subgraph_field_types(
                                    s3[i].schema,
                                    info.name,
                                    TypeKind::Object,
                                    field,
                                    shareable,
                                    apps[j],
                                );
                                lemma_kept_edit(
                                    subgraphs,
                                    s3,
                                    i,
                                    s3[i].schema.add_subgraph_field(
                                        info.name,
                                        TypeKind::Object,
                                        field,
                                        shareable,
                                        apps[j],
                                    )->Ok_0,
                                );
                            },
                        }
                    }
                    lemma_try_fold_keeps(apps, 0, s2, inner, inv);
                }
            }
            lemma_try_fold_keeps(t.fields, 0, implemented, field_step, inv);
        }
        lemma_try_fold_keeps(infos, 0, subgraphs, step, inv);
    }
}

/// Populating the interfaces keeps the registry.
pub proof fn lemma_interface_content_kept(
    supergraph: SchemaView,
    join: JoinSpecView,
    names: Seq<(Seq<char>, Seq<char>)>,
    subgraphs: Seq<SubgraphView>,
    infos: Seq<TypeInfoView>,
)
    ensures
        interface_content(supergraph, join, names, subgraphs, infos) matches Ok(r) ==> kept(
            subgraphs,
            r,
        ),
{
    if interface_content(supergraph, join, names, subgraphs, infos) is Ok {
        let field_directive = required_directive(supergraph, join, "field"@)->Ok_0;
        let implements_directive = versioned_directive(supergraph, join, "implements"@, 2)->Ok_0->0;
        let step = interface_type_step(supergraph, names, field_directive, implements_directive);
        let inv = |s: Seq<SubgraphView>| kept(subgraphs, s);
        assert forall|s: Seq<SubgraphView>, k: int|
            0 <= k < infos.len() && inv(s) && (#[trigger] step(s, infos[k])) is Ok implies inv(
            step(s, infos[k])->Ok_0,
        ) by {
            let info = infos[k];
            let at = supergraph.locate(info.name, TypeKind::Interface)->Ok_0;
            let t = supergraph.types[at];
            let implements_step = interface_implements_step(names, implements_directive, info);
            assert forall|s2: Seq<SubgraphView>, d: int|
                0 <= d < t.directives.len() && inv(s2) && (#[trigger] implements_step(
                    s2,
                    t.directives[d],
                )) is Ok implies inv(implements_step(s2, t.directives[d])->Ok_0) by {
                if t.directives[d].name == implements_directive {
                    let app = target_arguments(t.directives[d], "interface"@)->Ok_0;
                    lemma_resolve(names, s2, app.graph);
                    let i = resolve(names, s2, app.graph)->Ok_0;
                    let kind = interface_destination(
                        s2[i].schema,
                        info.owners,
                        app.graph,
                        info.name,
                    )->Ok_0;
                    let interface = graphql_name_spec(app.target)->Ok_0;
                    lemma_insert_implements_types(s2[i].schema, info.name, kind, interface);
                    lemma_kept_edit(
                        subgraphs,
                        s2,
                        i,
                        s2[i].schema.insert_implements(info.name, kind, interface)->Ok_0,
                    );
                }
            }
            lemma_try_fold_keeps(t.directives, 0, s, implements_step, inv);
            let implemented = try_fold(t.directives, 0, s, implements_step)->Ok_0;
            let field_step = interface_field_step(names, field_directive, info);
            assert forall|s2: Seq<SubgraphView>, fi: int|
                0 <= fi < t.fields.len() && inv(s2) && (#[trigger] field_step(s2, t.fields[fi]))
                    is Ok implies inv(field_step(s2, t.fields[fi])->Ok_0) by {
                let field = t.fields[fi];
                let apps = applications(field.directives, field_directive, field_decoder())->Ok_0;
                if apps.len() == 0 {
                    let inner = implicit_interface_step(names, info, field);
                    assert forall|s3: Seq<SubgraphView>, j: int|
                        0 <= j < info.owners.len() && inv(s3) && (#[trigger] inner(
                            s3,
                            info.owners[j],
                        )) is Ok implies inv(inner(s3, info.owners[j])->Ok_0) by {
                        let graph = info.owners[j].0;
                        lemma_resolve(names, s3, graph);
                        let i = resolve(names, s3, graph)->Ok_0;
                        let kind = interface_destination(
                            s3[i].schema,
                            info.owners,
                            graph,
                            info.name,
                        )->Ok_0;
                        lemma_add_subgraph_field_types(
                            s3[i].schema,
                            info.name,
                            kind,
                            field,
                            false,
                            FieldArgumentsView::none(),
                        );
                        lemma_kept_edit(
                            subgraphs,
                            s3,
                            i,
                            s3[i].schema.add_subgraph_field(
                                info.name,
                                kind,
                                field,
                                false,
                                FieldArgumentsView::none(),
                            )->Ok_0,
                        );
                    }
                    lemma_try_fold_keeps(info.owners, 0, s2, inner, inv);
                } else {
                    let inner = explicit_interface_step(names, info, field);
                    assert forall|s3: Seq<SubgraphView>, j: int|
                        0 <= j < apps.len() && inv(s3) && (#[trigger] inner(s3, apps[j]))
                            is Ok implies inv(inner(s3, apps[j])->Ok_0) by {
                        match apps[j].graph {
                            None => {},
                            Some(graph) => {
                                lemma_resolve(names, s3, graph);
                                let i = resolve(names, s3, graph)->Ok_0;
                                let kind = interface_destination(
                                    s3[i].schema,
                                    info.owners,
                                    graph,
                                    info.name,
                                )->Ok_0;
                                lemma_add_subgraph_field_types(
                                    s3[i].schema,
                                    info.name,
                                    kind,
                                    field,
                                    false,
                                    apps[j],
                                );
                                lemma_kept_edit(
                                    subgraphs,
                                    s3,
                                    i,
                                    s3[i].schema.add_subgraph_field(
                                        info.name,
                                        kind,
                                        field,
                                        false,
                                        apps[j],
                                    )->Ok_0,
                                );
                            },
                        }
                    }
                    lemma_try_fold_keeps(apps, 0, s2, inner, inv);
                }
            }
            lemma_try_fold_keeps(t.fields, 0, implemented, field_step, inv);
        }
        lemma_try_fold_keeps(infos, 0, subgraphs, step, inv);
    }
}

/// Giving a union the members that a service can have brings no type.
pub proof fn lemma_fan_out_types(
    start: SchemaView,
    s: SchemaView,
    name: Seq<char>,
    members: Seq<Seq<char>>,
    from: int,
)
    requires
        0 <= from,
        no_new_type(start, s),
    ensures
        try_fold(members, from, s, fan_out_step(name)) matches Ok(r) ==> no_new_type(start, r),
    decreases members.len() - from,
{
    if from < members.len() {
        if s.defines(members[from]) {
            if s.insert_member(name, members[from]) is Ok {
                let next = s.insert_member(name, members[from])->Ok_0;
                lemma_insert_member_types(s, name, members[from]);
                lemma_no_new_type_chain(start, s, next);
                lemma_fan_out_types(start, next, name, members, from + 1);
            }
        } else {
            lemma_fan_out_types(start, s, name, members, from + 1);
        }
    }
}

/// Populating the unions keeps the registry.
pub proof fn lemma_union_content_kept(
    supergraph: SchemaView,
    join: JoinSpecView,
    names: Seq<(Seq<char>, Seq<char>)>,
    subgraphs: Seq<SubgraphView>,
    infos: Seq<TypeInfoView>,
)
    ensures
        union_content(supergraph, join, names, subgraphs, infos) matches Ok(r) ==> kept(
            subgraphs,
            r,
        ),
{
    if union_content(supergraph, join, names, subgraphs, infos) is Ok {
        let member_directive = versioned_directive(supergraph, join, "unionMember"@, 3)->Ok_0;
        let step = union_type_step(supergraph, names, member_directive);
        let inv = |s: Seq<SubgraphView>| kept(subgraphs, s);
        assert forall|s: Seq<SubgraphView>, k: int|
            0 <= k < infos.len() && inv(s) && (#[trigger] step(s, infos[k])) is Ok implies inv(
            step(s, infos[k])->Ok_0,
        ) by {
            let info = infos[k];
            let at = supergraph.locate(info.name, TypeKind::Union)->Ok_0;
            let t = supergraph.types[at];
            let apps = optional_applications(
                t.directives,
                member_directive,
                target_decoder("member"@),
            )->Ok_0;
            if apps.len() == 0 {
                let inner = implicit_union_step(names, info.name, t.members);
                assert forall|s2: Seq<SubgraphView>, j: int|
                    0 <= j < info.owners.len() && inv(s2) && (#[trigger] inner(s2, info.owners[j]))
                        is Ok implies inv(inner(s2, info.owners[j])->Ok_0) by {
                    lemma_resolve(names, s2, info.owners[j].0);
                    let i = resolve(names, s2, info.owners[j].0)->Ok_0;
                    lemma_fan_out_types(s2[i].schema, s2[i].schema, info.name, t.members, 0);
                    lemma_kept_edit(
                        subgraphs,
                        s2,
                        i,
                        try_fold(t.members, 0, s2[i].schema, fan_out_step(info.name))->Ok_0,
                    );
                }
                lemma_try_fold_keeps(info.owners, 0, s, inner, inv);
            } else {
                let inner = explicit_union_step(names, info);
                assert forall|s2: Seq<SubgraphView>, j: int|
                    0 <= j < apps.len() && inv(s2) && (#[trigger] inner(s2, apps[j]))
                        is Ok implies inv(inner(s2, apps[j])->Ok_0) by {
                    lemma_resolve(names, s2, apps[j].graph);
                    let i = resolve(names, s2, apps[j].graph)->Ok_0;
                    let member = graphql_name_spec(apps[j].target)->Ok_0;
                    lemma_insert_member_types(s2[i].schema, info.name, member);
                    lemma_kept_edit(
                        subgraphs,
                        s2,
                        i,
                        s2[i].schema.insert_member(info.name, member)->Ok_0,
                    );
                }
                lemma_try_fold_keeps(apps, 0, s, inner, inv);
            }
        }
        lemma_try_fold_keeps(infos, 0, subgraphs, step, inv);
    }
}

/// Populating the enums keeps the registry.
pub proof fn lemma_enum_content_kept(
    supergraph: SchemaView,
    join: JoinSpecView,
    names: Seq<(Seq<char>, Seq<char>)>,
    subgraphs: Seq<SubgraphView>,
    infos: Seq<TypeInfoView>,
)
    ensures
        enum_content(supergraph, join, names, subgraphs, infos) matches Ok(r) ==> kept(subgraphs, r),
{
    if enum_content(supergraph, join, names, subgraphs, infos) is Ok {
        let value_directive = versioned_directive(supergraph, join, "enumValue"@, 3)->Ok_0;
        let step = enum_type_step(supergraph, names, value_directive);
        let inv = |s: Seq<SubgraphView>| kept(subgraphs, s);
        assert forall|s: Seq<SubgraphView>, k: int|
            0 <= k < infos.len() && inv(s) && (#[trigger] step(s, infos[k])) is Ok implies inv(
            step(s, infos[k])->Ok_0,
        ) by {
            let info = infos[k];
            let at = supergraph.locate(info.name, TypeKind::Enum)->Ok_0;
            let t = supergraph.types[at];
            let value_step = enum_value_step(names, value_directive, info);
            assert forall|s2: Seq<SubgraphView>, vi: int|
                0 <= vi < t.values.len() && inv(s2) && (#[trigger] value_step(s2, t.values[vi]))
                    is Ok implies inv(value_step(s2, t.values[vi])->Ok_0) by {
                let value = t.values[vi];
                let graphs = optional_applications(
                    value.directives,
                    value_directive,
                    graph_decoder(),
                )->Ok_0;
                if graphs.len() == 0 {
                    let inner = implicit_value_step(names, info.name, value.name);
                    assert forall|s3: Seq<SubgraphView>, j: int|
                        0 <= j < info.owners.len() && inv(s3) && (#[trigger] inner(
                            s3,
                            info.owners[j],
                        )) is Ok implies inv(inner(s3, info.owners[j])->Ok_0) by {
                        lemma_resolve(names, s3, info.owners[j].0);
                        let i = resolve(names, s3, info.owners[j].0)->Ok_0;
                        lemma_insert_enum_value_types(s3[i].schema, info.name, value.name);
                        lemma_kept_edit(
                            subgraphs,
                            s3,
                            i,
                            s3[i].schema.insert_enum_value(info.name, value.name)->Ok_0,
                        );
                    }
                    lemma_try_fold_keeps(info.owners, 0, s2, inner, inv);
                } else {
                    let inner = explicit_value_step(names, info, value.name);
                    assert forall|s3: Seq<SubgraphView>, j: int|
                        0 <= j < graphs.len() && inv(s3) && (#[trigger] inner(s3, graphs[j]))
                            is Ok implies inv(inner(s3, graphs[j])->Ok_0) by {
                        lemma_resolve(names, s3, graphs[j]);
                        let i = resolve(names, s3, graphs[j])->Ok_0;
                        lemma_insert_enum_value_types(s3[i].schema, info.name, value.name);
                        lemma_kept_edit(
                            subgraphs,
                            s3,
                            i,
                            s3[i].schema.insert_enum_value(info.name, value.name)->Ok_0,
                        );
                    }
                    lemma_try_fold_keeps(graphs, 0, s2, inner, inv);
                }
            }
            lemma_try_fold_keeps(t.values, 0, s, value_step, inv);
        }
        lemma_try_fold_keeps(infos, 0, subgraphs, step, inv);
    }
}

/// Populating the input objects keeps the registry.
pub proof fn lemma_input_content_kept(
    supergraph: SchemaView,
    join: JoinSpecView,
    names: Seq<(Seq<char>, Seq<char>)>,
    subgraphs: Seq<SubgraphView>,
    infos: Seq<TypeInfoView>,
)
    ensures
        input_content(supergraph, join, names, subgraphs, infos) matches Ok(r) ==> kept(
            subgraphs,
            r,
        ),
{
    if input_content(supergraph, join, names, subgraphs, infos) is Ok {
        let field_directive = required_directive(supergraph, join, "field"@)->Ok_0;
        let step = input_type_step(supergraph, names, field_directive);
        let inv = |s: Seq<SubgraphView>| kept(subgraphs, s);
        assert forall|s: Seq<SubgraphView>, k: int|
            0 <= k < infos.len() && inv(s) && (#[trigger] step(s, infos[k])) is Ok implies inv(
            step(s, infos[k])->Ok_0,
        ) by {
            let info = infos[k];
            let at = supergraph.locate(info.name, TypeKind::InputObject)->Ok_0;
            let t = supergraph.types[at];
            let field_step = input_field_step(names, field_directive, info);
            assert forall|s2: Seq<SubgraphView>, fi: int|
                0 <= fi < t.input_fields.len() && inv(s2) && (#[trigger] field_step(
                    s2,
                    t.input_fields[fi],
                )) is Ok implies inv(field_step(s2, t.input_fields[fi])->Ok_0) by {
                let field = t.input_fields[fi];
                let apps = applications(field.directives, field_directive, field_decoder())->Ok_0;
                if apps.len() == 0 {
                    let inner = implicit_input_step(names, info.name, field);
                    assert forall|s3: Seq<SubgraphView>, j: int|
                        0 <= j < info.owners.len() && inv(s3) && (#[trigger] inner(
                            s3,
                            info.owners[j],
                        )) is Ok implies inv(inner(s3, info.owners[j])->Ok_0) by {
                        lemma_resolve(names, s3, info.owners[j].0);
                        let i = resolve(names, s3, info.owners[j].0)->Ok_0;
                        lemma_add_subgraph_input_field_types(
                            s3[i].schema,
                            info.name,
                            field,
                            FieldArgumentsView::none(),
                        );
                        lemma_kept_edit(
                            subgraphs,
                            s3,
                            i,
                            s3[i].schema.add_subgraph_input_field(
                                info.name,
                                field,
                                FieldArgumentsView::none(),
                            )->Ok_0,
                        );
                    }
                    lemma_try_fold_keeps(info.owners, 0, s2, inner, inv);
                } else {
                    let inner = explicit_input_step(names, info, field);
                    assert forall|s3: Seq<SubgraphView>, j: int|
                        0 <= j < apps.len() && inv(s3) && (#[trigger] inner(s3, apps[j]))
                            is Ok implies inv(inner(s3, apps[j])->Ok_0) by {
                        match apps[j].graph {
                            None => {},
                            Some(graph) => {
                                lemma_resolve(names, s3, graph);
                                let i = resolve(names, s3, graph)->Ok_0;
                                lemma_add_subgraph_input_field_types(
                                    s3[i].schema,
                                    info.name,
                                    field,
                                    apps[j],
                                );
                                lemma_kept_edit(
                                    subgraphs,
                                    s3,
                                    i,
                                    s3[i].schema.add_subgraph_input_field(
                                        info.name,
                                        field,
                                        apps[j],
                                    )->Ok_0,
                                );
                            },
                        }
                    }
                    lemma_try_fold_keeps(apps, 0, s2, inner, inv);
                }
            }
            lemma_try_fold_keeps(t.input_fields, 0, s, field_step, inv);
        }
        lemma_try_fold_keeps(infos, 0, subgraphs, step, inv);
    }
}

/// A registry in which one service got a schema with one new type, which the
/// service owns, has its types within the preamble and the owned types.
pub proof fn lemma_within_edit(
    o: Origin,
    s: Seq<SubgraphView>,
    i: int,
    schema: SchemaView,
    name: Seq<char>,
    graph: Seq<char>,
)
    requires
        all_within(o, s),
        0 <= i < s.len(),
        one_new_type(s[i].schema, schema, name),
        lookup(o.names, graph) == Some(s[i].name),
        owns(o, name, graph),
    ensures
        all_within(o, with_schema(s, i, schema)),
{
    let after = with_schema(s, i, schema);
    assert forall|j: int| 0 <= j < after.len() implies schema_within(
        o,
        (#[trigger] after[j]).name,
        after[j].schema,
    ) by {
        assert(schema_within(o, s[j].name, s[j].schema));
        if j == i {
            assert forall|n: Seq<char>| #[trigger] schema.has_type(n) implies is_preamble_type(n)
                || owned_here(o, s[i].name, n) by {
                if n == name {
                    assert(owned_by(o, s[i].name, name, graph));
                } else {
                    assert(s[i].schema.has_type(n));
                }
            }
        }
    }
}

/// The shell of a supergraph type brings the type of its name.
pub proof fn lemma_insert_shell_for_types(
    s: SchemaView,
    name: Seq<char>,
    kind: TypeKind,
    is_interface_object: bool,
)
    ensures
        s.insert_shell_for(name, kind, is_interface_object) matches Ok(a) ==> one_new_type(
            s,
            a,
            name,
        ),
{
    if s.insert_shell_for(name, kind, is_interface_object) is Ok {
        let a = s.insert_shell_for(name, kind, is_interface_object)->Ok_0;
        match kind {
            TypeKind::Object => {
                let shelled = s.insert_shell(name, TypeKind::Object, Seq::empty())->Ok_0;
                lemma_insert_shell_types(s, name, TypeKind::Object, Seq::empty());
                match root_kind_of(name) {
                    Some(root) => {
                        if shelled.root(root).is_none() {
                            lemma_insert_root_types(shelled, root, name);
                        }
                    },
                    None => {},
                }
                assert forall|n: Seq<char>| #[trigger] a.has_type(n) implies s.has_type(n) || n
                    == name by {
                    assert(shelled.has_type(n));
                }
            },
            TypeKind::Interface => {
                if is_interface_object {
                    lemma_insert_shell_types(
                        s,
                        name,
                        TypeKind::Object,
                        seq![interface_object_directive()],
                    );
                } else {
                    lemma_insert_shell_types(s, name, TypeKind::Interface, Seq::empty());
                }
            },
            _ => {
                lemma_insert_shell_types(s, name, kind, Seq::empty());
            },
        }
    }
}

/// A key brings no type.
pub proof fn lemma_attach_key_types(s: SchemaView, name: Seq<char>, app: TypeArgumentsView)
    ensures
        s.attach_key(name, app) matches Ok(a) ==> no_new_type(s, a),
{
    if s.attach_key(name, app) is Ok {
        match app.key {
            None => {},
            Some(key) => {
                lemma_insert_type_directive_types(
                    s,
                    name,
                    key_directive(key, app.resolvable, app.extension),
                );
            },
        }
    }
}

/// Scaffolding leaves the types of every service within the preamble and the
/// types that the service owns.
pub proof fn lemma_scaffold_within(o: Origin, subgraphs: Seq<SubgraphView>)
    requires
        all_within(o, subgraphs),
    ensures
        scaffold(o.supergraph, o.specs, o.names, subgraphs) matches Ok(r) ==> all_within(
            o,
            r.subgraphs,
        ),
{
    if required_directive(o.supergraph, o.specs.join, "type"@) is Ok {
        let type_directive = join_directive(o, "type"@);
        let types = o.supergraph.types;
        let step = scaffold_step(o.names, o.specs, type_directive);
        let inv = |st: ScaffoldView| all_within(o, st.subgraphs);
        assert forall|st: ScaffoldView, k: int|
            0 <= k < types.len() && inv(st) && (#[trigger] step(st, types[k])) is Ok implies inv(
            step(st, types[k])->Ok_0,
        ) by {
            let t = types[k];
            if !is_spec_type(o.specs, t.name) {
                let apps = applications(t.directives, type_directive, type_decoder())->Ok_0;
                assert forall|j: int| 0 <= j < apps.len() implies owns(
                    o,
                    t.name,
                    (#[trigger] apps[j]).graph,
                ) by {
                    assert(type_applications_of(o, types[k]) == apps);
                    assert(names_graph(apps, apps[j].graph));
                }
                if t.kind == TypeKind::Scalar {
                    let inner = scalar_step(o.names, t.name);
                    let inner_inv = |s: Seq<SubgraphView>| all_within(o, s);
                    assert forall|s: Seq<SubgraphView>, j: int|
                        0 <= j < apps.len() && inner_inv(s) && (#[trigger] inner(s, apps[j]))
                            is Ok implies inner_inv(inner(s, apps[j])->Ok_0) by {
                        lemma_resolve(o.names, s, apps[j].graph);
                        let i = resolve(o.names, s, apps[j].graph)->Ok_0;
                        lemma_insert_shell_types(
                            s[i].schema,
                            t.name,
                            TypeKind::Scalar,
                            Seq::empty(),
                        );
                        lemma_within_edit(
                            o,
                            s,
                            i,
                            s[i].schema.insert_shell(t.name, TypeKind::Scalar, Seq::empty())->Ok_0,
                            t.name,
                            apps[j].graph,
                        );
                    }
                    lemma_try_fold_keeps(apps, 0, st.subgraphs, inner, inner_inv);
                } else {
                    let inner = shell_step(o.names, t.name, t.kind);
                    let inner_inv = |sh: ShellView| all_within(o, sh.subgraphs);
                    assert forall|sh: ShellView, j: int|
                        0 <= j < apps.len() && inner_inv(sh) && (#[trigger] inner(sh, apps[j]))
                            is Ok implies inner_inv(inner(sh, apps[j])->Ok_0) by {
                        let app = apps[j];
                        lemma_resolve(o.names, sh.subgraphs, app.graph);
                        let i = resolve(o.names, sh.subgraphs, app.graph)->Ok_0;
                        let schema = sh.subgraphs[i].schema;
                        let known = lookup(sh.owners, app.graph).is_some();
                        let is_io = t.kind == TypeKind::Interface && app.is_interface_object;
                        let s1 = if known {
                            schema
                        } else {
                            schema.insert_shell_for(t.name, t.kind, is_io)->Ok_0
                        };
                        if !known {
                            lemma_insert_shell_for_types(schema, t.name, t.kind, is_io);
                        }
                        lemma_attach_key_types(s1, t.name, app);
                        let s2 = s1.attach_key(t.name, app)->Ok_0;
                        assert forall|n: Seq<char>| #[trigger] s2.has_type(n) implies schema.has_type(
                            n,
                        ) || n == t.name by {
                            assert(s1.has_type(n));
                        }
                        lemma_within_edit(o, sh.subgraphs, i, s2, t.name, app.graph);
                    }
                    if apps.len() > 0 {
                        lemma_try_fold_keeps(
                            apps,
                            0,
                            ShellView { subgraphs: st.subgraphs, owners: Seq::empty() },
                            inner,
                            inner_inv,
                        );
                    }
                }
            }
        }
        let start = ScaffoldView { subgraphs, infos: TypeInfosView::empty() };
        lemma_try_fold_keeps(types, 0, start, step, inv);
    }
}

/// Directive definitions bring no type.
pub proof fn lemma_definitions_types(
    start: SchemaView,
    s: SchemaView,
    definitions: Seq<DirectiveDefinitionView>,
    from: int,
)
    requires
        0 <= from,
        no_new_type(start, s),
    ensures
        try_fold(definitions, from, s, definition_step()) matches Ok(r) ==> no_new_type(start, r),
    decreases definitions.len() - from,
{
    if from < definitions.len() {
        if s.insert_directive_definition(definitions[from]) is Ok {
            let next = s.insert_directive_definition(definitions[from])->Ok_0;
            lemma_insert_directive_definition_types(s, definitions[from]);
            lemma_no_new_type_chain(start, s, next);
            lemma_definitions_types(start, next, definitions, from + 1);
        }
    }
}

/// Giving the services from the position `from` on the directive
/// definitions, and pruning them, keeps the registry.
pub proof fn lemma_finish_kept(
    subgraphs: Seq<SubgraphView>,
    definitions: Seq<DirectiveDefinitionView>,
    done: Seq<SubgraphView>,
    from: int,
)
    requires
        0 <= from <= subgraphs.len(),
        done.len() == from,
        forall|i: int|
            0 <= i < from ==> (#[trigger] done[i]).name == subgraphs[i].name && no_new_type(
                subgraphs[i].schema,
                done[i].schema,
            ),
    ensures
        try_fold(subgraphs, from, done, finish_step(definitions)) matches Ok(r) ==> kept(
            subgraphs,
            r,
        ),
    decreases subgraphs.len() - from,
{
    if from < subgraphs.len() {
        let subgraph = subgraphs[from];
        if finish_schema(subgraph.schema, definitions) is Ok {
            let schema = finish_schema(subgraph.schema, definitions)->Ok_0;
            let defined = try_fold(definitions, 0, subgraph.schema, definition_step())->Ok_0;
            lemma_definitions_types(subgraph.schema, subgraph.schema, definitions, 0);
            lemma_prune_types(defined);
            lemma_no_new_type_chain(subgraph.schema, defined, schema);
            let next = done.push(SubgraphView { schema, ..subgraph });
            assert forall|i: int| 0 <= i < from + 1 implies (#[trigger] next[i]).name
                == subgraphs[i].name && no_new_type(subgraphs[i].schema, next[i].schema) by {
                if i < from {
                    assert(next[i] == done[i]);
                }
            }
            lemma_finish_kept(subgraphs, definitions, next, from + 1);
        }
    }
}

/// Populating the services leaves the types of every service within the
/// preamble and the types that the service owns.
pub proof fn lemma_populate_within(o: Origin, subgraphs: Seq<SubgraphView>)
    requires
        all_within(o, subgraphs),
    ensures
        populate(o.supergraph, o.specs, o.names, subgraphs) matches Ok(r) ==> all_within(o, r),
{
    if populate(o.supergraph, o.specs, o.names, subgraphs) is Ok {
        let join = o.specs.join;
        lemma_scaffold_within(o, subgraphs);
        let st = scaffold(o.supergraph, o.specs, o.names, subgraphs)->Ok_0;
        let s0 = st.subgraphs;
        lemma_object_content_kept(o.supergraph, join, o.names, s0, st.infos.object_types);
        let s1 = object_content(o.supergraph, join, o.names, s0, st.infos.object_types)->Ok_0;
        lemma_interface_content_kept(o.supergraph, join, o.names, s1, st.infos.interface_types);
        let s2 = interface_content(o.supergraph, join, o.names, s1, st.infos.interface_types)->Ok_0;
        lemma_union_content_kept(o.supergraph, join, o.names, s2, st.infos.union_types);
        let s3 = union_content(o.supergraph, join, o.names, s2, st.infos.union_types)->Ok_0;
        lemma_enum_content_kept(o.supergraph, join, o.names, s3, st.infos.enum_types);
        let s4 = enum_content(o.supergraph, join, o.names, s3, st.infos.enum_types)->Ok_0;
        lemma_input_content_kept(o.supergraph, join, o.names, s4, st.infos.input_object_types);
        let s5 = input_content(o.supergraph, join, o.names, s4, st.infos.input_object_types)->Ok_0;
        lemma_finish_kept(
            s5,
            executable_definitions(o.supergraph),
            Seq::<SubgraphView>::empty(),
            0,
        );
        let s6 = finish(s5, executable_definitions(o.supergraph))->Ok_0;
        lemma_kept_chain(s0, s1, s2);
        lemma_kept_chain(s0, s2, s3);
        lemma_kept_chain(s0, s3, s4);
        lemma_kept_chain(s0, s4, s5);
        lemma_kept_chain(s0, s5, s6);
        lemma_kept_within(o, s0, s6);
    }
}

/// The types of the preamble are preamble types.
pub proof fn lemma_preamble_types(name: Seq<char>)
    requires
        preamble().has_type(name),
    ensures
        is_preamble_type(name),
{
    let s = preamble();
    let i = choose|i: int| 0 <= i < s.types.len() && (#[trigger] s.types[i]).name == name;
    assert(i == 0 || i == 1 || i == 2 || i == 3);
}

/// Whether `after` has no type that `before` lacks, but possibly types that
/// the federation operations bring.
pub open spec fn operation_types_only(before: SchemaView, after: SchemaView) -> bool {
    forall|name: Seq<char>| #[trigger]
        after.has_type(name) ==> before.has_type(name) || is_operation_type(name)
}

/// After "operation types only", a step that brings an operation type or no
/// type leaves "operation types only".
pub proof fn lemma_operation_chain(a: SchemaView, b: SchemaView, c: SchemaView)
    requires
        operation_types_only(a, b),
        operation_types_only(b, c),
    ensures
        operation_types_only(a, c),
{
    assert forall|name: Seq<char>| #[trigger] c.has_type(name) implies a.has_type(name)
        || is_operation_type(name) by {
        if !is_operation_type(name) {
            assert(b.has_type(name));
        }
    }
}

/// Filling the union of entities brings no type.
pub proof fn lemma_entity_types(
    start: SchemaView,
    s: SchemaView,
    members: Seq<Seq<char>>,
    from: int,
)
    requires
        0 <= from,
        operation_types_only(start, s),
    ensures
        try_fold(members, from, s, entity_step()) matches Ok(r) ==> operation_types_only(start, r),
    decreases members.len() - from,
{
    if from < members.len() {
        if s.insert_member("_Entity"@, members[from]) is Ok {
            let next = s.insert_member("_Entity"@, members[from])->Ok_0;
            lemma_insert_member_types(s, "_Entity"@, members[from]);
            lemma_operation_chain(start, s, next);
            lemma_entity_types(start, next, members, from + 1);
        }
    }
}

/// The federation operations bring their own types only.
pub proof fn lemma_operations_types(s: SchemaView)
    ensures
        s.add_federation_operations() matches Ok(a) ==> operation_types_only(s, a),
{
    if s.add_federation_operations() is Ok {
        let a1 = s.insert_shell("_Any"@, TypeKind::Scalar, Seq::empty())->Ok_0;
        lemma_insert_shell_types(s, "_Any"@, TypeKind::Scalar, Seq::empty());
        let a2 = a1.insert_shell("_Service"@, TypeKind::Object, Seq::empty())->Ok_0;
        lemma_insert_shell_types(a1, "_Service"@, TypeKind::Object, Seq::empty());
        let s1 = a2.insert_field("_Service"@, TypeKind::Object, sdl_field())->Ok_0;
        lemma_insert_field_types(a2, "_Service"@, TypeKind::Object, sdl_field());
        lemma_operation_chain(s, a1, a2);
        lemma_operation_chain(s, a2, s1);
        let members = entity_names(s1);
        let s2 = s1.add_entity_union(members)->Ok_0;
        if members.len() > 0 {
            let e = s1.insert_shell("_Entity"@, TypeKind::Union, Seq::empty())->Ok_0;
            lemma_insert_shell_types(s1, "_Entity"@, TypeKind::Union, Seq::empty());
            lemma_operation_chain(s, s1, e);
            lemma_entity_types(s, e, members, 0);
        }
        let s3 = s2.ensure_query_root()->Ok_0;
        if s2.query_type is None {
            let q = s2.insert_shell("Query"@, TypeKind::Object, Seq::empty())->Ok_0;
            lemma_insert_shell_types(s2, "Query"@, TypeKind::Object, Seq::empty());
            lemma_insert_root_types(q, RootKind::Query, "Query"@);
            lemma_operation_chain(s, s2, q);
            lemma_operation_chain(s, q, s3);
        }
        let query = s3.query_type->0;
        let cleared = s3.remove_field(query, "_entities"@);
        lemma_remove_field_types(s3, query, "_entities"@);
        lemma_operation_chain(s, s3, cleared);
        let with_entities = if members.len() > 0 {
            cleared.insert_field(query, TypeKind::Object, entities_field())->Ok_0
        } else {
            cleared
        };
        if members.len() > 0 {
            lemma_insert_field_types(cleared, query, TypeKind::Object, entities_field());
        }
        lemma_operation_chain(s, cleared, with_entities);
        let a = with_entities.insert_field(query, TypeKind::Object, service_field())->Ok_0;
        lemma_insert_field_types(with_entities, query, TypeKind::Object, service_field());
        lemma_operation_chain(s, with_entities, a);
    }
}

/// Whether every type of the schema is a type of the preamble or of the
/// federation operations, or a type that the service owns.
pub open spec fn schema_accounted(o: Origin, service: Seq<char>, schema: SchemaView) -> bool {
    forall|name: Seq<char>| #[trigger]
        schema.has_type(name) ==> is_preamble_type(name) || is_operation_type(name) || owned_here(
            o,
            service,
            name,
        )
}

/// Whether every type of every service is accounted for.
pub open spec fn all_accounted(o: Origin, subgraphs: Seq<SubgraphView>) -> bool {
    forall|i: int|
        0 <= i < subgraphs.len() ==> schema_accounted(
            o,
            (#[trigger] subgraphs[i]).name,
            subgraphs[i].schema,
        )
}

/// Completing the services leaves every type of every service accounted for.
pub proof fn lemma_complete_accounted(o: Origin, subgraphs: Seq<SubgraphView>, validate: bool)
    requires
        all_accounted(o, subgraphs),
    ensures
        complete(o.names, subgraphs, validate) matches Ok(r) ==> all_accounted(o, r),
{
    let step = complete_step(o.names, validate);
    let inv = |s: Seq<SubgraphView>| all_accounted(o, s);
    assert forall|s: Seq<SubgraphView>, k: int|
        0 <= k < o.names.len() && inv(s) && (#[trigger] step(s, o.names[k])) is Ok implies inv(
        step(s, o.names[k])->Ok_0,
    ) by {
        lemma_resolve(o.names, s, o.names[k].0);
        let i = resolve(o.names, s, o.names[k].0)->Ok_0;
        let schema = complete_schema(s[i], validate)->Ok_0;
        lemma_operations_types(s[i].schema);
        let after = with_schema(s, i, schema);
        assert forall|x: int| 0 <= x < after.len() implies schema_accounted(
            o,
            (#[trigger] after[x]).name,
            after[x].schema,
        ) by {
            assert(schema_accounted(o, s[x].name, s[x].schema));
            if x == i {
                assert forall|n: Seq<char>| #[trigger] schema.has_type(n) implies is_preamble_type(n)
                    || is_operation_type(n) || owned_here(o, s[i].name, n) by {
                    if !is_operation_type(n) {
                        assert(s[i].schema.has_type(n));
                    }
                }
            }
        }
    }
    lemma_try_fold_keeps(o.names, 0, subgraphs, step, inv);
}

/// A registry of preambles has its types within the preamble.
pub proof fn lemma_preamble_within(o: Origin, subgraphs: Seq<SubgraphView>)
    requires
        all_preamble(subgraphs),
    ensures
        all_within(o, subgraphs),
{
    assert forall|i: int| 0 <= i < subgraphs.len() implies schema_within(
        o,
        (#[trigger] subgraphs[i]).name,
        subgraphs[i].schema,
    ) by {
        assert forall|n: Seq<char>| #[trigger] subgraphs[i].schema.has_type(n) implies is_preamble_type(
            n,
        ) || owned_here(o, subgraphs[i].name, n) by {
            lemma_preamble_types(n);
        }
    }
}

/// Type lineage. In the services drawn from a supergraph, every type of
/// every service is accounted for: it is a type of the federation preamble or
/// of the federation operations, or the supergraph has a type of that name, of
/// no specification, with a type-level application that names the service.
pub proof fn lemma_type_lineage(supergraph: SchemaView, validate_extracted_subgraphs: Option<bool>)
    ensures
        extraction(supergraph, validate_extracted_subgraphs) matches Ok(subgraphs)
            ==> all_accounted(origin_of(supergraph), subgraphs),
{
    if extraction(supergraph, validate_extracted_subgraphs) is Ok {
        let o = origin_of(supergraph);
        let seeded = seed(supergraph, o.specs.join)->Ok_0;
        lemma_seed(supergraph, o.specs.join);
        lemma_preamble_within(o, seeded.subgraphs);
        lemma_populate_within(o, seeded.subgraphs);
        let populated = populate(supergraph, o.specs, o.names, seeded.subgraphs)->Ok_0;
        assert forall|i: int| 0 <= i < populated.len() implies schema_accounted(
            o,
            (#[trigger] populated[i]).name,
            populated[i].schema,
        ) by {
            assert(schema_within(o, populated[i].name, populated[i].schema));
        }
        lemma_complete_accounted(o, populated, validation_wanted(validate_extracted_subgraphs));
    }
}

/// A schema has a type of a name exactly where it finds the name.
pub proof fn lemma_has_type(s: SchemaView, name: Seq<char>)
    ensures
        s.has_type(name) == s.type_index(name).is_some(),
{
    lemma_type_index(s, name);
    if s.has_type(name) {
        let i = choose|i: int| 0 <= i < s.types.len() && (#[trigger] s.types[i]).name == name;
        assert(s.types[i].name == name);
    }
}

/// Whether the service that the value `graph` of the graph enumeration
/// stands for has exactly the entity surface that it needs: a consistent one,
/// with the union `_Entity` where the service has an object that carries a
/// key, and without a type `_Entity` where it has none.
pub open spec fn service_exact(
    names: Seq<(Seq<char>, Seq<char>)>,
    subgraphs: Seq<SubgraphView>,
    graph: Seq<char>,
) -> bool {
    match resolve(names, subgraphs, graph) {
        Ok(i) => 0 <= i < subgraphs.len() && surface_consistent(subgraphs[i].schema)
            && subgraphs[i].schema.has_type("_Entity"@) == (entity_names(subgraphs[i].schema).len()
            > 0),
        Err(_) => false,
    }
}

/// Whether the service that the value `graph` stands for has been completed
/// with exactly the entity surface that it needs.
pub open spec fn service_finished(
    names: Seq<(Seq<char>, Seq<char>)>,
    subgraphs: Seq<SubgraphView>,
    graph: Seq<char>,
) -> bool {
    service_exact(names, subgraphs, graph) && match resolve(names, subgraphs, graph) {
        Ok(i) => subgraphs[i].schema.type_index("_Any"@).is_some(),
        Err(_) => false,
    }
}

/// Whether no service that lacks the scalar `_Any` has a type `_Entity`.
pub open spec fn entity_only_with_any(subgraphs: Seq<SubgraphView>) -> bool {
    forall|i: int|
        0 <= i < subgraphs.len() && (#[trigger] subgraphs[i]).schema.type_index("_Any"@).is_none()
            ==> !subgraphs[i].schema.has_type("_Entity"@)
}

/// Completing the services from the entry `from` on, where those of the
/// entries before it have been completed and no other has a type `_Entity`,
/// completes the service of every entry with exactly the entity surface that
/// it needs.
pub proof fn lemma_complete_exact(
    names: Seq<(Seq<char>, Seq<char>)>,
    subgraphs: Seq<SubgraphView>,
    validate: bool,
    from: int,
)
    requires
        0 <= from <= names.len(),
        forall|k: int| 0 <= k < from ==> service_finished(names, subgraphs, (#[trigger] names[k]).0),
        entity_only_with_any(subgraphs),
    ensures
        try_fold(names, from, subgraphs, complete_step(names, validate)) matches Ok(r) ==> forall|
            k: int,
        |
            0 <= k < names.len() ==> service_finished(names, r, (#[trigger] names[k]).0),
    decreases names.len() - from,
{
    let step = complete_step(names, validate);
    if from < names.len() && step(subgraphs, names[from]) is Ok {
        let graph = names[from].0;
        lemma_resolve(names, subgraphs, graph);
        let i = resolve(names, subgraphs, graph)->Ok_0;
        let before = subgraphs[i].schema;
        let schema = complete_schema(subgraphs[i], validate)->Ok_0;
        lemma_entity_surface(before);
        lemma_operations_any(before);
        lemma_has_type(before, "_Entity"@);
        lemma_has_type(schema, "_Entity"@);
        let next = with_schema(subgraphs, i, schema);
        assert forall|k: int| 0 <= k < from + 1 implies service_finished(
            names,
            next,
            (#[trigger] names[k]).0,
        ) by {
            lemma_resolve_kept(names, subgraphs, i, schema, names[k].0);
            if k < from {
                assert(service_finished(names, subgraphs, names[k].0));
            }
        }
        assert forall|x: int|
            0 <= x < next.len() && (#[trigger] next[x]).schema.type_index(
                "_Any"@,
            ).is_none() implies !next[x].schema.has_type("_Entity"@) by {
            if x != i {
                assert(next[x] == subgraphs[x]);
            }
        }
        lemma_complete_exact(names, next, validate, from + 1);
    }
}

/// Entity surface consistency, in full. In the services drawn from a
/// supergraph that has no type named `_Entity`, the service of every value of
/// the graph enumeration has a query root with the field `_entities`, and the
/// union `_Entity`, where it has an object that carries a key, and has neither
/// the field nor a type `_Entity` where it has none.
pub proof fn lemma_entity_surface_exact(
    supergraph: SchemaView,
    validate_extracted_subgraphs: Option<bool>,
)
    ensures
        !supergraph.has_type("_Entity"@) ==> (extraction(
            supergraph,
            validate_extracted_subgraphs,
        ) matches Ok(subgraphs) ==> {
            let names = origin_of(supergraph).names;
            forall|k: int|
                0 <= k < names.len() ==> service_exact(names, subgraphs, (#[trigger] names[k]).0)
        }),
{
    if !supergraph.has_type("_Entity"@) && extraction(supergraph, validate_extracted_subgraphs)
        is Ok {
        let o = origin_of(supergraph);
        let seeded = seed(supergraph, o.specs.join)->Ok_0;
        lemma_seed(supergraph, o.specs.join);
        lemma_preamble_within(o, seeded.subgraphs);
        lemma_populate_within(o, seeded.subgraphs);
        let populated = populate(supergraph, o.specs, o.names, seeded.subgraphs)->Ok_0;
        reveal_strlit("_Entity");
        reveal_strlit("link__Import");
        reveal_strlit("link__Purpose");
        reveal_strlit("federation__FieldSet");
        reveal_strlit("federation__Scope");
        assert("_Entity"@.len() == 7);
        assert(!is_preamble_type("_Entity"@));
        assert forall|i: int|
            0 <= i < populated.len() && (#[trigger] populated[i]).schema.type_index(
                "_Any"@,
            ).is_none() implies !populated[i].schema.has_type("_Entity"@) by {
            assert(schema_within(o, populated[i].name, populated[i].schema));
            if populated[i].schema.has_type("_Entity"@) {
                let graph = choose|graph: Seq<char>| #[trigger]
                    owned_by(o, populated[i].name, "_Entity"@, graph);
                assert(owns(o, "_Entity"@, graph));
            }
        }
        let validate = validation_wanted(validate_extracted_subgraphs);
        lemma_complete_exact(o.names, populated, validate, 0);
        let r = complete(o.names, populated, validate)->Ok_0;
        assert forall|k: int| 0 <= k < o.names.len() implies service_exact(
            o.names,
            r,
            (#[trigger] o.names[k]).0,
        ) by {
            assert(service_finished(o.names, r, o.names[k].0));
        }
    }
}

} // verus!
