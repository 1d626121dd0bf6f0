//! Kinds: the shell of a type decides its kind, and nothing that follows
//! changes it. The edits that populate a type keep the name and the kind of
//! every type of the schema, and pruning leaves only types that the schema
//! had, each with the kind that it had.
use crate::closure::lemma_filter_item;
use crate::federation::{interface_object_directive, preamble};
use crate::join::TypeArgumentsView;
use crate::lineage::{is_operation_type, is_preamble_type, lemma_preamble_types};
use crate::ownership::all_preamble;
use crate::prune::{empty_shells, strip_type, type_elsewhere};
use crate::schema::{DirectiveView, FieldView, InputValueView, SchemaView, TypeKind};
use crate::seqs::{first_where, lemma_first_where};
use crate::subgraphs::{with_schema, SubgraphView};
use crate::surface::lemma_type_index;
use vstd::prelude::*;

verus! {

/// Whether the schema has a type named `name` of kind `kind`.
pub open spec fn has_type_of(s: SchemaView, name: Seq<char>, kind: TypeKind) -> bool {
    exists|j: int|
        0 <= j < s.types.len() && (#[trigger] s.types[j]).name == name && s.types[j].kind == kind
}

/// Whether the two schemas have types of the same names and kinds, position
/// by position.
pub open spec fn same_kinds(a: SchemaView, b: SchemaView) -> bool {
    &&& a.types.len() == b.types.len()
    &&& forall|j: int|
        0 <= j < a.types.len() ==> (#[trigger] b.types[j]).name == a.types[j].name
            && b.types[j].kind == a.types[j].kind
}

/// Whether `after` holds the services of `before`, each with types of the
/// same names and kinds.
pub open spec fn kinds_kept(before: Seq<SubgraphView>, after: Seq<SubgraphView>) -> bool {
    &&& after.len() == before.len()
    &&& forall|i: int|
        0 <= i < before.len() ==> same_kinds(before[i].schema, (#[trigger] after[i]).schema)
}

/// The kind of the shell that a service gets for a supergraph type of kind
/// `kind`: an object where the service has the interface as an interface
/// object, and `kind` otherwise.
pub open spec fn shell_kind(kind: TypeKind, is_interface_object: bool) -> TypeKind {
    if kind == TypeKind::Interface && is_interface_object {
        TypeKind::Object
    } else {
        kind
    }
}

/// Chained, "same kinds" stays "same kinds".
pub proof fn lemma_same_kinds_chain(a: SchemaView, b: SchemaView, c: SchemaView)
    requires
        same_kinds(a, b),
        same_kinds(b, c),
    ensures
        same_kinds(a, c),
{
    assert forall|j: int| 0 <= j < a.types.len() implies (#[trigger] c.types[j]).name
        == a.types[j].name && c.types[j].kind == a.types[j].kind by {
        assert(b.types[j].name == a.types[j].name);
    }
}

/// Chained, "kinds kept" stays "kinds kept".
pub proof fn lemma_kinds_kept_chain(a: Seq<SubgraphView>, b: Seq<SubgraphView>, c: Seq<SubgraphView>)
    requires
        kinds_kept(a, b),
        kinds_kept(b, c),
    ensures
        kinds_kept(a, c),
{
    assert forall|i: int| 0 <= i < a.len() implies same_kinds(
        a[i].schema,
        (#[trigger] c[i]).schema,
    ) by {
        assert(same_kinds(a[i].schema, b[i].schema));
        lemma_same_kinds_chain(a[i].schema, b[i].schema, c[i].schema);
    }
}

/// A registry in which the schema of one service kept its kinds has kept the
/// kinds.
pub proof fn lemma_kinds_edit(
    start: Seq<SubgraphView>,
    s: Seq<SubgraphView>,
    i: int,
    schema: SchemaView,
)
    requires
        kinds_kept(start, s),
        0 <= i < s.len(),
        same_kinds(s[i].schema, schema),
    ensures
        kinds_kept(start, with_schema(s, i, schema)),
{
    let after = with_schema(s, i, schema);
    assert(kinds_kept(s, after)) by {
        assert forall|j: int| 0 <= j < s.len() implies same_kinds(
            s[j].schema,
            (#[trigger] after[j]).schema,
        ) by {}
    }
    lemma_kinds_kept_chain(start, s, after);
}

/// A field that is added changes the kind of no type.
pub proof fn lemma_insert_field_kinds(
    s: SchemaView,
    owner: Seq<char>,
    kind: TypeKind,
    field: FieldView,
)
    ensures
        s.insert_field(owner, kind, field) matches Ok(a) ==> same_kinds(s, a),
{
    lemma_type_index(s, owner);
}

/// An input field that is added changes the kind of no type.
pub proof fn lemma_insert_input_field_kinds(s: SchemaView, owner: Seq<char>, field: InputValueView)
    ensures
        s.insert_input_field(owner, field) matches Ok(a) ==> same_kinds(s, a),
{
    lemma_type_index(s, owner);
}

/// An enum value that is added changes the kind of no type.
pub proof fn lemma_insert_enum_value_kinds(s: SchemaView, owner: Seq<char>, value: Seq<char>)
    ensures
        s.insert_enum_value(owner, value) matches Ok(a) ==> same_kinds(s, a),
{
    lemma_type_index(s, owner);
}

/// A union member that is added changes the kind of no type.
pub proof fn lemma_insert_member_kinds(s: SchemaView, owner: Seq<char>, member: Seq<char>)
    ensures
        s.insert_member(owner, member) matches Ok(a) ==> same_kinds(s, a),
{
    lemma_type_index(s, owner);
}

/// An implemented interface that is recorded changes the kind of no type.
pub proof fn lemma_insert_implements_kinds(
    s: SchemaView,
    owner: Seq<char>,
    kind: TypeKind,
    interface: Seq<char>,
)
    ensures
        s.insert_implements(owner, kind, interface) matches Ok(a) ==> same_kinds(s, a),
{
    lemma_type_index(s, owner);
}

/// The shell of a supergraph type has the name of the type and the kind that
/// the service is to have it with, and the types that the schema had keep
/// their names and kinds.
pub proof fn lemma_shell_for_kind(
    s: SchemaView,
    name: Seq<char>,
    kind: TypeKind,
    is_interface_object: bool,
)
    ensures
        s.insert_shell_for(name, kind, is_interface_object) matches Ok(a) ==> {
            &&& a.types.len() == s.types.len() + 1
            &&& a.types[s.types.len() as int].name == name
            &&& a.types[s.types.len() as int].kind == shell_kind(kind, is_interface_object)
            &&& forall|j: int|
                0 <= j < s.types.len() ==> (#[trigger] a.types[j]).name == s.types[j].name
                    && a.types[j].kind == s.types[j].kind
        },
{
    if s.insert_shell_for(name, kind, is_interface_object) is Ok {
        let a = s.insert_shell_for(name, kind, is_interface_object)->Ok_0;
        match kind {
            TypeKind::Object => {
                let shelled = s.insert_shell(name, TypeKind::Object, Seq::empty())->Ok_0;
                assert(a.types == shelled.types);
            },
            TypeKind::Interface => {
                if is_interface_object {
                    let shelled = s.insert_shell(
                        name,
                        TypeKind::Object,
                        seq![interface_object_directive()],
                    )->Ok_0;
                    assert(a == shelled);
                }
            },
            _ => {},
        }
    }
}

/// Whether every type of `b` is, by name and kind, a type of `a`.
pub open spec fn kinds_within(a: SchemaView, b: SchemaView) -> bool {
    forall|n: Seq<char>, k: TypeKind| #[trigger] has_type_of(b, n, k) ==> has_type_of(a, n, k)
}

/// Whether every type of `b` is, by name and kind, a type of `a`, or is
/// named `name` and has the kind of a shell for a supergraph type of kind
/// `kind`.
pub open spec fn shelled(a: SchemaView, b: SchemaView, name: Seq<char>, kind: TypeKind) -> bool {
    forall|n: Seq<char>, k: TypeKind| #[trigger]
        has_type_of(b, n, k) ==> has_type_of(a, n, k) || (n == name && (k == kind || (kind
            == TypeKind::Interface && k == TypeKind::Object)))
}

/// Whether every type of `b` is, by name and kind, a type of `a`, or has the
/// name of a type that the federation operations bring.
pub open spec fn kinds_within_operations(a: SchemaView, b: SchemaView) -> bool {
    forall|n: Seq<char>, k: TypeKind| #[trigger]
        has_type_of(b, n, k) ==> has_type_of(a, n, k) || is_operation_type(n)
}

/// Whether a type named `name` of kind `kind` follows the supergraph: the
/// name is that of a type of the preamble or of the federation operations,
/// or the supergraph has a type of that name, of that kind or, where the type
/// is an object, an interface.
pub open spec fn kind_follows(supergraph: SchemaView, name: Seq<char>, kind: TypeKind) -> bool {
    is_preamble_type(name) || is_operation_type(name) || has_type_of(supergraph, name, kind) || (
    kind == TypeKind::Object && has_type_of(supergraph, name, TypeKind::Interface))
}

/// Whether every type of the schema follows the supergraph.
pub open spec fn schema_kinds_follow(supergraph: SchemaView, schema: SchemaView) -> bool {
    forall|n: Seq<char>, k: TypeKind| #[trigger]
        has_type_of(schema, n, k) ==> kind_follows(supergraph, n, k)
}

/// Whether every type of every service follows the supergraph.
pub open spec fn all_kinds_follow(supergraph: SchemaView, registry: Seq<SubgraphView>) -> bool {
    forall|i: int|
        0 <= i < registry.len() ==> schema_kinds_follow(supergraph, (#[trigger] registry[i]).schema)
}

/// Whether `after` holds the services of `before`, each with the types that
/// it had and possibly shells of the supergraph type `name` of kind `kind`.
pub open spec fn shelled_all(
    before: Seq<SubgraphView>,
    after: Seq<SubgraphView>,
    name: Seq<char>,
    kind: TypeKind,
) -> bool {
    &&& after.len() == before.len()
    &&& forall|i: int|
        0 <= i < before.len() ==> shelled(before[i].schema, (#[trigger] after[i]).schema, name, kind)
}

/// Whether `after` holds the services of `before`, each with no type that it
/// lacked, by name and kind.
pub open spec fn kinds_within_all(before: Seq<SubgraphView>, after: Seq<SubgraphView>) -> bool {
    &&& after.len() == before.len()
    &&& forall|i: int|
        0 <= i < before.len() ==> kinds_within(before[i].schema, (#[trigger] after[i]).schema)
}

/// Whether `after` holds the services of `before`, each with no type that it
/// lacked, by name and kind, but for types that the federation operations
/// bring.
pub open spec fn kinds_within_operations_all(
    before: Seq<SubgraphView>,
    after: Seq<SubgraphView>,
) -> bool {
    &&& after.len() == before.len()
    &&& forall|i: int|
        0 <= i < before.len() ==> kinds_within_operations(
            before[i].schema,
            (#[trigger] after[i]).schema,
        )
}

/// Schemas with the same kinds have the same types, by name and kind.
pub proof fn lemma_same_kinds_within(a: SchemaView, b: SchemaView)
    requires
        same_kinds(a, b),
    ensures
        kinds_within(a, b),
        kinds_within(b, a),
{
    assert forall|n: Seq<char>, k: TypeKind| #[trigger] has_type_of(b, n, k) implies has_type_of(
        a,
        n,
        k,
    ) by {
        let j = choose|j: int|
            0 <= j < b.types.len() && (#[trigger] b.types[j]).name == n && b.types[j].kind == k;
        assert(a.types[j].name == n && a.types[j].kind == k);
    }
    assert forall|n: Seq<char>, k: TypeKind| #[trigger] has_type_of(a, n, k) implies has_type_of(
        b,
        n,
        k,
    ) by {
        let j = choose|j: int|
            0 <= j < a.types.len() && (#[trigger] a.types[j]).name == n && a.types[j].kind == k;
        assert(b.types[j].name == n && b.types[j].kind == k);
    }
}

/// A shell that is added is the one new type.
pub proof fn lemma_insert_shell_shelled(
    s: SchemaView,
    name: Seq<char>,
    kind: TypeKind,
    directives: Seq<DirectiveView>,
)
    ensures
        s.insert_shell(name, kind, directives) matches Ok(a) ==> shelled(s, a, name, kind),
        s.insert_shell(name, kind, directives) matches Ok(a) ==> kinds_within(a, s),
{
    if s.insert_shell(name, kind, directives) is Ok {
        let a = s.insert_shell(name, kind, directives)->Ok_0;
        assert forall|n: Seq<char>, k: TypeKind| #[trigger] has_type_of(a, n, k) implies has_type_of(
            s,
            n,
            k,
        ) || (n == name && k == kind) by {
            let j = choose|j: int|
                0 <= j < a.types.len() && (#[trigger] a.types[j]).name == n && a.types[j].kind == k;
            if j < s.types.len() {
                assert(s.types[j].name == n && s.types[j].kind == k);
            }
        }
        assert forall|n: Seq<char>, k: TypeKind| #[trigger] has_type_of(s, n, k) implies has_type_of(
            a,
            n,
            k,
        ) by {
            let j = choose|j: int|
                0 <= j < s.types.len() && (#[trigger] s.types[j]).name == n && s.types[j].kind == k;
            assert(a.types[j].name == n && a.types[j].kind == k);
        }
    }
}

/// The shell of a supergraph type is the one new type.
pub proof fn lemma_shell_for_shelled(
    s: SchemaView,
    name: Seq<char>,
    kind: TypeKind,
    is_interface_object: bool,
)
    ensures
        s.insert_shell_for(name, kind, is_interface_object) matches Ok(a) ==> shelled(
            s,
            a,
            name,
            kind,
        ),
{
    if s.insert_shell_for(name, kind, is_interface_object) is Ok {
        let a = s.insert_shell_for(name, kind, is_interface_object)->Ok_0;
        lemma_shell_for_kind(s, name, kind, is_interface_object);
        assert forall|n: Seq<char>, k: TypeKind| #[trigger] has_type_of(a, n, k) implies has_type_of(
            s,
            n,
            k,
        ) || (n == name && (k == kind || (kind == TypeKind::Interface && k == TypeKind::Object))) by {
            let j = choose|j: int|
                0 <= j < a.types.len() && (#[trigger] a.types[j]).name == n && a.types[j].kind == k;
            if j < s.types.len() {
                assert(s.types[j].name == n && s.types[j].kind == k);
            }
        }
    }
}

/// A directive that is put on a type changes the kind of no type.
pub proof fn lemma_insert_type_directive_kinds(s: SchemaView, owner: Seq<char>, directive: DirectiveView)
    ensures
        s.insert_type_directive(owner, directive) matches Ok(a) ==> same_kinds(s, a),
{
    lemma_type_index(s, owner);
}

/// A key that is attached changes the kind of no type.
pub proof fn lemma_attach_key_kinds(s: SchemaView, name: Seq<char>, app: TypeArgumentsView)
    ensures
        s.attach_key(name, app) matches Ok(a) ==> same_kinds(s, a),
{
    lemma_type_index(s, name);
}

/// Removing fields changes the kind of no type.
pub proof fn lemma_remove_field_kinds(s: SchemaView, owner: Seq<char>, field: Seq<char>)
    ensures
        same_kinds(s, s.remove_field(owner, field)),
{
    lemma_type_index(s, owner);
}

/// After "shelled", a step that changes no kind leaves "shelled".
pub proof fn lemma_shelled_same(
    a: SchemaView,
    b: SchemaView,
    c: SchemaView,
    name: Seq<char>,
    kind: TypeKind,
)
    requires
        shelled(a, b, name, kind),
        same_kinds(b, c),
    ensures
        shelled(a, c, name, kind),
{
    lemma_same_kinds_within(b, c);
    assert forall|n: Seq<char>, k: TypeKind| #[trigger] has_type_of(c, n, k) implies has_type_of(
        a,
        n,
        k,
    ) || (n == name && (k == kind || (kind == TypeKind::Interface && k == TypeKind::Object))) by {
        assert(has_type_of(b, n, k));
    }
}

/// A registry in which the schema of one service got shells of the type has
/// got shells of the type.
pub proof fn lemma_shelled_all_edit(
    start: Seq<SubgraphView>,
    s: Seq<SubgraphView>,
    i: int,
    schema: SchemaView,
    name: Seq<char>,
    kind: TypeKind,
)
    requires
        shelled_all(start, s, name, kind),
        0 <= i < s.len(),
        shelled(s[i].schema, schema, name, kind),
    ensures
        shelled_all(start, with_schema(s, i, schema), name, kind),
{
    let after = with_schema(s, i, schema);
    assert forall|j: int| 0 <= j < start.len() implies shelled(
        start[j].schema,
        (#[trigger] after[j]).schema,
        name,
        kind,
    ) by {
        assert(shelled(start[j].schema, s[j].schema, name, kind));
        if j == i {
            assert forall|n: Seq<char>, k: TypeKind| #[trigger]
                has_type_of(schema, n, k) implies has_type_of(start[i].schema, n, k) || (n == name
                && (k == kind || (kind == TypeKind::Interface && k == TypeKind::Object))) by {
                if has_type_of(s[i].schema, n, k) {
                }
            }
        }
    }
}

/// Services whose types follow the supergraph still have types that follow
/// it after they got shells of one of its types.
pub proof fn lemma_follow_shelled(
    supergraph: SchemaView,
    a: Seq<SubgraphView>,
    b: Seq<SubgraphView>,
    at: int,
)
    requires
        all_kinds_follow(supergraph, a),
        0 <= at < supergraph.types.len(),
        shelled_all(a, b, supergraph.types[at].name, supergraph.types[at].kind),
    ensures
        all_kinds_follow(supergraph, b),
{
    let name = supergraph.types[at].name;
    let kind = supergraph.types[at].kind;
    assert forall|i: int| 0 <= i < b.len() implies schema_kinds_follow(
        supergraph,
        (#[trigger] b[i]).schema,
    ) by {
        assert(schema_kinds_follow(supergraph, a[i].schema));
        assert(shelled(a[i].schema, b[i].schema, name, kind));
        assert forall|n: Seq<char>, k: TypeKind| #[trigger]
            has_type_of(b[i].schema, n, k) implies kind_follows(supergraph, n, k) by {
            if !has_type_of(a[i].schema, n, k) {
                assert(has_type_of(supergraph, name, kind));
            }
        }
    }
}

/// Services whose types follow the supergraph still have types that follow
/// it where the kinds are kept.
pub proof fn lemma_follow_kept(supergraph: SchemaView, a: Seq<SubgraphView>, b: Seq<SubgraphView>)
    requires
        all_kinds_follow(supergraph, a),
        kinds_kept(a, b),
    ensures
        all_kinds_follow(supergraph, b),
{
    assert forall|i: int| 0 <= i < b.len() implies schema_kinds_follow(
        supergraph,
        (#[trigger] b[i]).schema,
    ) by {
        assert(schema_kinds_follow(supergraph, a[i].schema));
        assert(same_kinds(a[i].schema, b[i].schema));
        lemma_same_kinds_within(a[i].schema, b[i].schema);
        assert forall|n: Seq<char>, k: TypeKind| #[trigger]
            has_type_of(b[i].schema, n, k) implies kind_follows(supergraph, n, k) by {
            assert(has_type_of(a[i].schema, n, k));
        }
    }
}

/// Services whose types follow the supergraph still have types that follow
/// it where they got no type.
pub proof fn lemma_follow_within(supergraph: SchemaView, a: Seq<SubgraphView>, b: Seq<SubgraphView>)
    requires
        all_kinds_follow(supergraph, a),
        kinds_within_all(a, b),
    ensures
        all_kinds_follow(supergraph, b),
{
    assert forall|i: int| 0 <= i < b.len() implies schema_kinds_follow(
        supergraph,
        (#[trigger] b[i]).schema,
    ) by {
        assert(schema_kinds_follow(supergraph, a[i].schema));
        assert(kinds_within(a[i].schema, b[i].schema));
        assert forall|n: Seq<char>, k: TypeKind| #[trigger]
            has_type_of(b[i].schema, n, k) implies kind_follows(supergraph, n, k) by {
            assert(has_type_of(a[i].schema, n, k));
        }
    }
}

/// Services whose types follow the supergraph still have types that follow
/// it where they got the types of the federation operations only.
pub proof fn lemma_follow_operations(
    supergraph: SchemaView,
    a: Seq<SubgraphView>,
    b: Seq<SubgraphView>,
)
    requires
        all_kinds_follow(supergraph, a),
        kinds_within_operations_all(a, b),
    ensures
        all_kinds_follow(supergraph, b),
{
    assert forall|i: int| 0 <= i < b.len() implies schema_kinds_follow(
        supergraph,
        (#[trigger] b[i]).schema,
    ) by {
        assert(schema_kinds_follow(supergraph, a[i].schema));
        assert(kinds_within_operations(a[i].schema, b[i].schema));
        assert forall|n: Seq<char>, k: TypeKind| #[trigger]
            has_type_of(b[i].schema, n, k) implies kind_follows(supergraph, n, k) by {
            if !is_operation_type(n) {
                assert(has_type_of(a[i].schema, n, k));
            }
        }
    }
}

/// After "within the operations", a shell under the name of a type of the
/// federation operations leaves "within the operations".
pub proof fn lemma_operations_shell(
    a: SchemaView,
    b: SchemaView,
    c: SchemaView,
    name: Seq<char>,
    kind: TypeKind,
)
    requires
        kinds_within_operations(a, b),
        shelled(b, c, name, kind),
        is_operation_type(name),
    ensures
        kinds_within_operations(a, c),
{
    assert forall|n: Seq<char>, k: TypeKind| #[trigger] has_type_of(c, n, k) implies has_type_of(
        a,
        n,
        k,
    ) || is_operation_type(n) by {
        if has_type_of(b, n, k) {
        }
    }
}

/// After "within the operations", a step that changes no kind leaves "within
/// the operations".
pub proof fn lemma_operations_same(a: SchemaView, b: SchemaView, c: SchemaView)
    requires
        kinds_within_operations(a, b),
        same_kinds(b, c),
    ensures
        kinds_within_operations(a, c),
{
    lemma_same_kinds_within(b, c);
    assert forall|n: Seq<char>, k: TypeKind| #[trigger] has_type_of(c, n, k) implies has_type_of(
        a,
        n,
        k,
    ) || is_operation_type(n) by {
        assert(has_type_of(b, n, k));
    }
}

/// Chained, "within the operations" stays "within the operations".
pub proof fn lemma_operations_chain(a: SchemaView, b: SchemaView, c: SchemaView)
    requires
        kinds_within_operations(a, b),
        kinds_within_operations(b, c),
    ensures
        kinds_within_operations(a, c),
{
    assert forall|n: Seq<char>, k: TypeKind| #[trigger] has_type_of(c, n, k) implies has_type_of(
        a,
        n,
        k,
    ) || is_operation_type(n) by {
        if has_type_of(b, n, k) {
        }
    }
}

/// After steps that change no kind, a step that brings no type leaves a
/// schema with no type that it lacked.
pub proof fn lemma_within_after_same(a: SchemaView, b: SchemaView, c: SchemaView)
    requires
        same_kinds(a, b),
        kinds_within(b, c),
    ensures
        kinds_within(a, c),
{
    lemma_same_kinds_within(a, b);
    assert forall|n: Seq<char>, k: TypeKind| #[trigger] has_type_of(c, n, k) implies has_type_of(
        a,
        n,
        k,
    ) by {
        assert(has_type_of(b, n, k));
    }
}

/// A registry in which the schema of one service got no type has got no
/// type.
pub proof fn lemma_within_all_edit(
    start: Seq<SubgraphView>,
    s: Seq<SubgraphView>,
    i: int,
    schema: SchemaView,
)
    requires
        kinds_within_all(start, s),
        0 <= i < s.len(),
        kinds_within(s[i].schema, schema),
    ensures
        kinds_within_all(start, with_schema(s, i, schema)),
{
    let after = with_schema(s, i, schema);
    assert forall|j: int| 0 <= j < start.len() implies kinds_within(
        start[j].schema,
        (#[trigger] after[j]).schema,
    ) by {
        assert(kinds_within(start[j].schema, s[j].schema));
        if j == i {
            assert forall|n: Seq<char>, k: TypeKind| #[trigger]
                has_type_of(schema, n, k) implies has_type_of(start[i].schema, n, k) by {
                assert(has_type_of(s[i].schema, n, k));
            }
        }
    }
}

/// A registry in which the schema of one service got the types of the
/// federation operations only has got those only.
pub proof fn lemma_operations_all_edit(
    start: Seq<SubgraphView>,
    s: Seq<SubgraphView>,
    i: int,
    schema: SchemaView,
)
    requires
        kinds_within_operations_all(start, s),
        0 <= i < s.len(),
        kinds_within_operations(s[i].schema, schema),
    ensures
        kinds_within_operations_all(start, with_schema(s, i, schema)),
{
    let after = with_schema(s, i, schema);
    assert forall|j: int| 0 <= j < start.len() implies kinds_within_operations(
        start[j].schema,
        (#[trigger] after[j]).schema,
    ) by {
        assert(kinds_within_operations(start[j].schema, s[j].schema));
        if j == i {
            lemma_operations_chain(start[i].schema, s[i].schema, schema);
        }
    }
}

/// The types of a registry of preambles follow whatever supergraph.
pub proof fn lemma_preamble_follows(supergraph: SchemaView, registry: Seq<SubgraphView>)
    requires
        all_preamble(registry),
    ensures
        all_kinds_follow(supergraph, registry),
{
    assert forall|i: int| 0 <= i < registry.len() implies schema_kinds_follow(
        supergraph,
        (#[trigger] registry[i]).schema,
    ) by {
        assert(registry[i].schema == preamble());
        assert forall|n: Seq<char>, k: TypeKind| #[trigger]
            has_type_of(registry[i].schema, n, k) implies kind_follows(supergraph, n, k) by {
            let j = choose|j: int|
                0 <= j < preamble().types.len() && (#[trigger] preamble().types[j]).name == n
                    && preamble().types[j].kind == k;
            assert(preamble().has_type(n));
            lemma_preamble_types(n);
        }
    }
}

/// A type of the schema without a removed type was a type of the schema, of
/// the same kind.
pub proof fn lemma_without_type_kinds(
    s: SchemaView,
    removed: Seq<char>,
    name: Seq<char>,
    kind: TypeKind,
)
    requires
        has_type_of(s.without_type(removed), name, kind),
    ensures
        has_type_of(s, name, kind),
{
    let after = s.without_type(removed);
    let kept = s.types.filter(type_elsewhere(removed));
    let k = choose|k: int|
        0 <= k < after.types.len() && (#[trigger] after.types[k]).name == name
            && after.types[k].kind == kind;
    lemma_filter_item(s.types, type_elsewhere(removed), k);
    let q = choose|q: int| 0 <= q < s.types.len() && #[trigger] s.types[q] == kept[k];
    assert(after.types[k] == strip_type(removed)(kept[k]));
    assert(s.types[q].name == name && s.types[q].kind == kind);
}

/// A type of the schema after rounds of pruning was a type of the schema, of
/// the same kind.
proof fn lemma_prune_rounds_kinds(s: SchemaView, rounds: nat, name: Seq<char>, kind: TypeKind)
    requires
        has_type_of(s.prune_rounds(rounds), name, kind),
    ensures
        has_type_of(s, name, kind),
    decreases rounds,
{
    if rounds > 0 {
        lemma_first_where(s.types, empty_shells());
        match first_where(s.types, empty_shells()) {
            None => {},
            Some(i) => {
                let after = s.without_type(s.types[i].name);
                lemma_prune_rounds_kinds(after, (rounds - 1) as nat, name, kind);
                lemma_without_type_kinds(s, s.types[i].name, name, kind);
            },
        }
    }
}

/// Pruning changes no kind: a type of the pruned schema was a type of the
/// schema, of the same kind.
pub proof fn lemma_prune_kinds(s: SchemaView, name: Seq<char>, kind: TypeKind)
    requires
        has_type_of(s.prune(), name, kind),
    ensures
        has_type_of(s, name, kind),
{
    lemma_prune_rounds_kinds(s, s.types.len(), name, kind);
}

} // verus!
