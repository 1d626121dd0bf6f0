//! What holds of a schema once it has the federation operations: the entity
//! surface is there exactly where the service has entities, and a schema
//! that held no empty shell holds none.
use crate::edits::shell;
use crate::extract::{
    complete, complete_schema, complete_step, extraction, populate, validation_wanted,
};
use crate::operations::{
    entities, entities_field, entity_names, entity_step, is_entity, name_of, sdl_field,
    service_field,
};
use crate::ordered::lookup;
use crate::ownership::origin_of;
use crate::provenance::applies;
use crate::prune::is_empty_shell;
use crate::scaffold::seed;
use crate::schema::{DirectiveView, FieldView, SchemaView, TypeDefinitionView, TypeKind};
use crate::seqs::{
    first_where, lemma_first_where, lemma_first_where_none, lemma_first_where_push,
    lemma_first_where_same, try_fold,
};
use crate::subgraphs::{SubgraphView, named, resolve, with_schema};
use vstd::prelude::*;

verus! {

/// Whether no type of the schema, but possibly the one at position `k`, is
/// an empty shell.
pub open spec fn empty_at_most(s: SchemaView, k: int) -> bool {
    forall|i: int| 0 <= i < s.types.len() && i != k ==> !is_empty_shell(#[trigger] s.types[i])
}

/// The position of the first type named `name`, or a position that the
/// schema does not have.
pub open spec fn index_or_none(s: SchemaView, name: Seq<char>) -> int {
    match s.type_index(name) {
        Some(i) => i,
        None => -1,
    }
}

/// Whether `after` finds the name where `before` finds it, and there a type
/// of the same kind.
pub open spec fn keeps(before: SchemaView, after: SchemaView, name: Seq<char>) -> bool {
    &&& after.type_index(name) == before.type_index(name)
    &&& before.type_index(name) matches Some(k) ==> after.types[k].kind == before.types[k].kind
}

/// Whether the object `owner` of the schema has a field named `field`.
pub open spec fn has_field(s: SchemaView, owner: Seq<char>, field: Seq<char>) -> bool {
    match s.locate(owner, TypeKind::Object) {
        Ok(i) => first_where(s.types[i].fields, |f: FieldView| f.name == field).is_some(),
        Err(_) => false,
    }
}

/// Two sequences of types that agree, position by position, on the names
/// and on which types are entities have the same entities.
pub proof fn lemma_entities_same(x: Seq<TypeDefinitionView>, y: Seq<TypeDefinitionView>)
    requires
        x.len() == y.len(),
        forall|i: int|
            0 <= i < x.len() ==> (#[trigger] x[i]).name == y[i].name && is_entity(x[i])
                == is_entity(y[i]),
    ensures
        x.filter(entities()).map_values(name_of()) == y.filter(entities()).map_values(name_of()),
    decreases x.len(),
{
    reveal(Seq::filter);
    if x.len() > 0 {
        let xs = x.drop_last();
        let ys = y.drop_last();
        assert forall|i: int| 0 <= i < xs.len() implies (#[trigger] xs[i]).name == ys[i].name
            && is_entity(xs[i]) == is_entity(ys[i]) by {
            assert(xs[i] == x[i]);
            assert(ys[i] == y[i]);
        }
        lemma_entities_same(xs, ys);
        assert(x.last() == x[x.len() - 1]);
        assert(y.last() == y[y.len() - 1]);
        if is_entity(x.last()) {
            assert(x.filter(entities()).map_values(name_of()) =~= xs.filter(
                entities(),
            ).map_values(name_of()).push(x.last().name));
            assert(y.filter(entities()).map_values(name_of()) =~= ys.filter(
                entities(),
            ).map_values(name_of()).push(y.last().name));
        }
    } else {
        assert(x.filter(entities()).map_values(name_of()) =~= y.filter(entities()).map_values(
            name_of(),
        ));
    }
}

/// A schema in which one type is replaced by a type of the same name, kind
/// and directives has the same entities.
pub proof fn lemma_update_entities(s: SchemaView, i: int, t: TypeDefinitionView)
    requires
        0 <= i < s.types.len(),
        t.name == s.types[i].name,
        t.kind == s.types[i].kind,
        t.directives == s.types[i].directives,
    ensures
        entity_names(s.with_type(i, t)) == entity_names(s),
{
    lemma_entities_same(s.with_type(i, t).types, s.types);
}

/// A schema with one more type, which carries no directive, has the same
/// entities.
pub proof fn lemma_push_entities(s: SchemaView, t: TypeDefinitionView)
    requires
        t.directives.len() == 0,
    ensures
        s.types.push(t).filter(entities()).map_values(name_of()) == entity_names(s),
{
    lemma_first_where_none(t.directives, applies("federation__key"@));
    s.types.lemma_filter_push(t, entities());
}

/// What a type index says of the type that it finds.
pub proof fn lemma_type_index(s: SchemaView, name: Seq<char>)
    ensures
        match s.type_index(name) {
            Some(i) => 0 <= i < s.types.len() && s.types[i].name == name && forall|j: int|
                0 <= j < i ==> (#[trigger] s.types[j]).name != name,
            None => forall|j: int| 0 <= j < s.types.len() ==> (#[trigger] s.types[j]).name != name,
        },
{
    let p = |t: TypeDefinitionView| t.name == name;
    lemma_first_where(s.types, p);
    match s.type_index(name) {
        Some(i) => {
            assert forall|j: int| 0 <= j < i implies (#[trigger] s.types[j]).name != name by {
                assert(!p(s.types[j]));
            }
        },
        None => {
            assert forall|j: int| 0 <= j < s.types.len() implies (#[trigger] s.types[j]).name
                != name by {
                assert(!p(s.types[j]));
            }
        },
    }
}

/// A schema in which one type is replaced by a type of the same name finds
/// every name where it found it.
pub proof fn lemma_update_index(s: SchemaView, i: int, t: TypeDefinitionView, name: Seq<char>)
    requires
        0 <= i < s.types.len(),
        t.name == s.types[i].name,
    ensures
        s.with_type(i, t).type_index(name) == s.type_index(name),
{
    let p = |x: TypeDefinitionView| x.name == name;
    lemma_first_where_same(s.types, s.with_type(i, t).types, p);
}

/// What adding a shell does: the shell is the last type and the first of its
/// name, every other name is found where it was, and a schema without empty
/// shell gets none but the shell, and none at all where the shell is a scalar.
pub proof fn lemma_shell(
    s: SchemaView,
    name: Seq<char>,
    kind: TypeKind,
    directives: Seq<DirectiveView>,
    other: Seq<char>,
)
    requires
        s.insert_shell(name, kind, directives) is Ok,
    ensures
        ({
            let a = s.insert_shell(name, kind, directives)->Ok_0;
            &&& a.types == s.types.push(shell(name, kind, directives))
            &&& a.query_type == s.query_type
            &&& a.type_index(name) == Some(s.types.len() as int)
            &&& s.type_index(name).is_none()
            &&& other != name ==> keeps(s, a, other)
            &&& s.no_empty_shells() ==> empty_at_most(a, s.types.len() as int)
            &&& s.no_empty_shells() && kind == TypeKind::Scalar ==> a.no_empty_shells()
            &&& directives.len() == 0 ==> entity_names(a) == entity_names(s)
        }),
{
    let a = s.insert_shell(name, kind, directives)->Ok_0;
    let t = shell(name, kind, directives);
    if directives.len() == 0 {
        lemma_push_entities(s, t);
    }
    lemma_first_where_push(s.types, t, |x: TypeDefinitionView| x.name == name);
    lemma_first_where_push(s.types, t, |x: TypeDefinitionView| x.name == other);
    lemma_type_index(s, other);
    if s.no_empty_shells() {
        assert forall|i: int| 0 <= i < a.types.len() && i != s.types.len() implies !is_empty_shell(
            #[trigger] a.types[i],
        ) by {
            assert(a.types[i] == s.types[i]);
        }
    }
}

/// What adding a field to an object does: the object, which is the first
/// type of its name, gets the field after those it has, every name is found
/// where it was, and a schema in which no type but the object was an empty
/// shell has none.
pub proof fn lemma_field(s: SchemaView, owner: Seq<char>, field: FieldView, other: Seq<char>)
    requires
        s.insert_field(owner, TypeKind::Object, field) is Ok,
    ensures
        ({
            let a = s.insert_field(owner, TypeKind::Object, field)->Ok_0;
            let i = index_or_none(s, owner);
            &&& 0 <= i < s.types.len()
            &&& s.types[i].kind == TypeKind::Object
            &&& a == s.with_type(
                i,
                TypeDefinitionView { fields: s.types[i].fields.push(field), ..s.types[i] },
            )
            &&& keeps(s, a, other)
            &&& empty_at_most(s, i) ==> a.no_empty_shells()
            &&& entity_names(a) == entity_names(s)
        }),
{
    let a = s.insert_field(owner, TypeKind::Object, field)->Ok_0;
    lemma_type_index(s, owner);
    lemma_type_index(s, other);
    let i = index_or_none(s, owner);
    let t = TypeDefinitionView { fields: s.types[i].fields.push(field), ..s.types[i] };
    lemma_update_index(s, i, t, other);
    lemma_update_entities(s, i, t);
    if empty_at_most(s, i) {
        assert forall|j: int| 0 <= j < a.types.len() implies !is_empty_shell(
            #[trigger] a.types[j],
        ) by {
            if j != i {
                assert(a.types[j] == s.types[j]);
            }
        }
    }
}

/// What adding a member to a union does: the union, which is the first type
/// of its name, has a member afterwards, every name is found where it was,
/// and a schema in which no type but the union was an empty shell has none.
pub proof fn lemma_member(s: SchemaView, owner: Seq<char>, member: Seq<char>, other: Seq<char>)
    requires
        s.insert_member(owner, member) is Ok,
    ensures
        ({
            let a = s.insert_member(owner, member)->Ok_0;
            let i = index_or_none(s, owner);
            &&& 0 <= i < s.types.len()
            &&& a.types.len() == s.types.len()
            &&& a.query_type == s.query_type
            &&& keeps(s, a, other)
            &&& empty_at_most(s, i) ==> a.no_empty_shells()
            &&& entity_names(a) == entity_names(s)
        }),
{
    let a = s.insert_member(owner, member)->Ok_0;
    lemma_type_index(s, owner);
    lemma_type_index(s, other);
    let i = index_or_none(s, owner);
    let t = s.types[i];
    if t.members.contains(member) {
        if empty_at_most(s, i) {
            assert forall|j: int| 0 <= j < a.types.len() implies !is_empty_shell(
                #[trigger] a.types[j],
            ) by {}
        }
    } else {
        let after_t = TypeDefinitionView { members: t.members.push(member), ..t };
        lemma_update_index(s, i, after_t, other);
        lemma_update_entities(s, i, after_t);
        if empty_at_most(s, i) {
            assert forall|j: int| 0 <= j < a.types.len() implies !is_empty_shell(
                #[trigger] a.types[j],
            ) by {
                if j != i {
                    assert(a.types[j] == s.types[j]);
                }
            }
        }
    }
}

/// Filling the union of entities from a schema in which no type but the
/// union is an empty shell leaves no empty shell, as soon as one member went
/// in; it moves no type and changes no root.
pub proof fn lemma_entity_fold(s: SchemaView, members: Seq<Seq<char>>, from: int, other: Seq<char>)
    requires
        0 <= from <= members.len(),
        try_fold(members, from, s, entity_step()) is Ok,
    ensures
        ({
            let a = try_fold(members, from, s, entity_step())->Ok_0;
            &&& a.types.len() == s.types.len()
            &&& a.query_type == s.query_type
            &&& keeps(s, a, other)
            &&& entity_names(a) == entity_names(s)
            &&& s.no_empty_shells() ==> a.no_empty_shells()
            &&& from < members.len() && empty_at_most(s, index_or_none(s, "_Entity"@))
                ==> a.no_empty_shells()
        }),
    decreases members.len() - from,
{
    if from < members.len() {
        let next = s.insert_member("_Entity"@, members[from])->Ok_0;
        lemma_member(s, "_Entity"@, members[from], other);
        lemma_member(s, "_Entity"@, members[from], "_Entity"@);
        lemma_entity_fold(next, members, from + 1, other);
        if s.no_empty_shells() {
            assert(empty_at_most(s, index_or_none(s, "_Entity"@)));
        }
    }
}

/// What removing fields of an object does: no type moves, no root changes,
/// and no type but the object becomes an empty shell.
pub proof fn lemma_remove_field(s: SchemaView, owner: Seq<char>, field: Seq<char>, other: Seq<char>)
    ensures
        ({
            let a = s.remove_field(owner, field);
            &&& a.types.len() == s.types.len()
            &&& a.query_type == s.query_type
            &&& keeps(s, a, other)
            &&& empty_at_most(s, index_or_none(s, owner)) ==> empty_at_most(
                a,
                index_or_none(s, owner),
            )
            &&& !has_field(a, owner, field)
            &&& entity_names(a) == entity_names(s)
        }),
{
    let a = s.remove_field(owner, field);
    lemma_type_index(s, owner);
    lemma_type_index(s, other);
    if s.locate(owner, TypeKind::Object) is Ok {
        let i = index_or_none(s, owner);
        let t = s.types[i];
        let kept = t.fields.filter(|f: FieldView| f.name != field);
        let after_t = TypeDefinitionView { fields: kept, ..t };
        lemma_update_index(s, i, after_t, other);
        lemma_update_index(s, i, after_t, owner);
        lemma_update_entities(s, i, after_t);
        if empty_at_most(s, i) {
            assert forall|j: int| 0 <= j < a.types.len() && j != i implies !is_empty_shell(
                #[trigger] a.types[j],
            ) by {
                assert(a.types[j] == s.types[j]);
            }
        }
        let p = |f: FieldView| f.name == field;
        assert forall|j: int| 0 <= j < kept.len() implies !p(#[trigger] kept[j]) by {
            t.fields.lemma_filter_pred(|f: FieldView| f.name != field, j);
        }
        lemma_first_where_none(kept, p);
        assert(a.types[i] == after_t);
    }
}

/// The texts that name the types and fields of the federation operations
/// differ from one another.
pub proof fn lemma_operation_names()
    ensures
        "_Any"@ != "_Entity"@,
        "_Service"@ != "_Entity"@,
        "Query"@ != "_Entity"@,
        "_service"@ != "_entities"@,
        "_Any"@ != "_Service"@,
{
    reveal_strlit("_Any");
    reveal_strlit("_Entity");
    reveal_strlit("_Service");
    reveal_strlit("Query");
    reveal_strlit("_service");
    reveal_strlit("_entities");
    assert("_Any"@.len() != "_Entity"@.len());
    assert("_Service"@.len() != "_Entity"@.len());
    assert("Query"@.len() != "_Entity"@.len());
    assert("_service"@.len() != "_entities"@.len());
    assert("_Any"@.len() != "_Service"@.len());
}

/// The scalar `_Any` and the type `_Service` leave the schema without empty
/// shell, and every other name where it was.
pub proof fn lemma_service_types(s: SchemaView, other: Seq<char>)
    requires
        s.add_service_types() is Ok,
    ensures
        ({
            let a = s.add_service_types()->Ok_0;
            &&& a.query_type == s.query_type
            &&& other != "_Any"@ && other != "_Service"@ ==> keeps(s, a, other)
            &&& s.no_empty_shells() ==> a.no_empty_shells()
            &&& entity_names(a) == entity_names(s)
        }),
{
    let s1 = s.insert_shell("_Any"@, TypeKind::Scalar, Seq::empty())->Ok_0;
    let s2 = s1.insert_shell("_Service"@, TypeKind::Object, Seq::empty())->Ok_0;
    let a = s2.insert_field("_Service"@, TypeKind::Object, sdl_field())->Ok_0;
    lemma_shell(s, "_Any"@, TypeKind::Scalar, Seq::empty(), other);
    lemma_shell(s1, "_Service"@, TypeKind::Object, Seq::empty(), other);
    lemma_field(s2, "_Service"@, sdl_field(), other);
}

/// The union of entities leaves the schema without empty shell, and every
/// other name where it was; where there are members, it is there as a union.
pub proof fn lemma_entity_union(s: SchemaView, members: Seq<Seq<char>>, other: Seq<char>)
    requires
        s.add_entity_union(members) is Ok,
    ensures
        ({
            let a = s.add_entity_union(members)->Ok_0;
            &&& a.query_type == s.query_type
            &&& other != "_Entity"@ ==> keeps(s, a, other)
            &&& s.no_empty_shells() ==> a.no_empty_shells()
            &&& entity_names(a) == entity_names(s)
            &&& members.len() == 0 ==> a == s
            &&& members.len() > 0 ==> a.has_kind("_Entity"@, TypeKind::Union)
        }),
{
    if members.len() > 0 {
        let s1 = s.insert_shell("_Entity"@, TypeKind::Union, Seq::empty())->Ok_0;
        lemma_shell(s, "_Entity"@, TypeKind::Union, Seq::empty(), other);
        lemma_entity_fold(s1, members, 0, other);
        lemma_entity_fold(s1, members, 0, "_Entity"@);
    }
}

/// The query root leaves every name but `Query` where it was; afterwards the
/// schema has a query root, and no empty shell but possibly that root.
pub proof fn lemma_query_root(s: SchemaView, other: Seq<char>)
    requires
        s.ensure_query_root() is Ok,
    ensures
        ({
            let a = s.ensure_query_root()->Ok_0;
            &&& a.query_type is Some
            &&& other != "Query"@ ==> keeps(s, a, other)
            &&& s.no_empty_shells() ==> empty_at_most(a, index_or_none(a, a.query_type->0))
            &&& entity_names(a) == entity_names(s)
        }),
{
    if s.query_type is None {
        let s1 = s.insert_shell("Query"@, TypeKind::Object, Seq::empty())->Ok_0;
        lemma_shell(s, "Query"@, TypeKind::Object, Seq::empty(), other);
    } else {
        if s.no_empty_shells() {
            assert(empty_at_most(s, index_or_none(s, s.query_type->0)));
        }
    }
}

/// The fields of the query root leave every name where it was and the schema
/// without empty shell; the root has the field `_entities` exactly where the
/// service has entities.
pub proof fn lemma_root_fields(s: SchemaView, query: Seq<char>, has_entities: bool, other: Seq<char>)
    requires
        s.add_root_fields(query, has_entities) is Ok,
    ensures
        ({
            let a = s.add_root_fields(query, has_entities)->Ok_0;
            &&& a.query_type == s.query_type
            &&& keeps(s, a, other)
            &&& empty_at_most(s, index_or_none(s, query)) ==> a.no_empty_shells()
            &&& has_field(a, query, "_entities"@) == has_entities
            &&& entity_names(a) == entity_names(s)
        }),
{
    lemma_operation_names();
    let named = |f: FieldView| f.name == "_entities"@;
    let cleared = s.remove_field(query, "_entities"@);
    lemma_remove_field(s, query, "_entities"@, other);
    lemma_remove_field(s, query, "_entities"@, query);
    if has_entities {
        let e = cleared.insert_field(query, TypeKind::Object, entities_field())->Ok_0;
        lemma_field(cleared, query, entities_field(), other);
        lemma_field(cleared, query, entities_field(), query);
        lemma_field(e, query, service_field(), other);
        lemma_field(e, query, service_field(), query);
        if empty_at_most(s, index_or_none(s, query)) {
            assert(e.no_empty_shells());
            assert(empty_at_most(e, index_or_none(e, query)));
        }
        let a = e.insert_field(query, TypeKind::Object, service_field())->Ok_0;
        let i = index_or_none(cleared, query);
        let fields = a.types[i].fields;
        lemma_first_where(fields, named);
        assert(named(fields[cleared.types[i].fields.len() as int]));
    } else {
        lemma_field(cleared, query, service_field(), other);
        lemma_field(cleared, query, service_field(), query);
        let a = cleared.insert_field(query, TypeKind::Object, service_field())->Ok_0;
        let i = index_or_none(cleared, query);
        lemma_first_where_push(cleared.types[i].fields, service_field(), named);
    }
}

/// A schema without empty shell that gets the federation operations has no
/// empty shell.
pub proof fn lemma_operations_no_empty_shells(s: SchemaView)
    requires
        s.no_empty_shells(),
    ensures
        s.add_federation_operations() matches Ok(a) ==> a.no_empty_shells(),
{
    if s.add_federation_operations() is Ok {
        let s1 = s.add_service_types()->Ok_0;
        lemma_service_types(s, "Query"@);
        let members = entity_names(s1);
        let s2 = s1.add_entity_union(members)->Ok_0;
        lemma_entity_union(s1, members, "Query"@);
        let s3 = s2.ensure_query_root()->Ok_0;
        lemma_query_root(s2, "_Entity"@);
        lemma_root_fields(s3, s3.query_type->0, members.len() > 0, "_Entity"@);
    }
}

/// Whether the entity surface of a schema is consistent: the schema has a
/// query root, which has the field `_entities` exactly where the schema has
/// an object that carries a key, and where it has one the schema has the
/// union `_Entity`.
pub open spec fn surface_consistent(a: SchemaView) -> bool {
    &&& a.query_type is Some
    &&& has_field(a, a.query_type->0, "_entities"@) == (entity_names(a).len() > 0)
    &&& entity_names(a).len() > 0 ==> a.has_kind("_Entity"@, TypeKind::Union)
}

/// The entity surface is consistent: once a schema has the federation
/// operations, it has the objects that carry a key that it had, its query
/// root has the field `_entities` exactly where there is such an object; where
/// there is one, `_Entity` is a union of the schema, and where there is none,
/// the operations bring no type `_Entity`.
pub proof fn lemma_entity_surface(s: SchemaView)
    ensures
        s.add_federation_operations() matches Ok(a) ==> {
            &&& entity_names(a) == entity_names(s)
            &&& surface_consistent(a)
            &&& entity_names(s).len() == 0 ==> a.type_index("_Entity"@) == s.type_index(
                "_Entity"@,
            )
        },
{
    if s.add_federation_operations() is Ok {
        lemma_operation_names();
        let s1 = s.add_service_types()->Ok_0;
        lemma_service_types(s, "_Entity"@);
        let members = entity_names(s1);
        let s2 = s1.add_entity_union(members)->Ok_0;
        lemma_entity_union(s1, members, "_Entity"@);
        let s3 = s2.ensure_query_root()->Ok_0;
        lemma_query_root(s2, "_Entity"@);
        lemma_root_fields(s3, s3.query_type->0, members.len() > 0, "_Entity"@);
    }
}

/// Whether the service that the value `graph` of the graph enumeration
/// stands for is in the registry, with a consistent entity surface.
pub open spec fn service_consistent(
    names: Seq<(Seq<char>, Seq<char>)>,
    subgraphs: Seq<SubgraphView>,
    graph: Seq<char>,
) -> bool {
    match resolve(names, subgraphs, graph) {
        Ok(i) => 0 <= i < subgraphs.len() && surface_consistent(subgraphs[i].schema),
        Err(_) => false,
    }
}

/// Whether the service that the value `graph` stands for has been completed:
/// its entity surface is consistent and it has the scalar `_Any`.
pub open spec fn service_completed(
    names: Seq<(Seq<char>, Seq<char>)>,
    subgraphs: Seq<SubgraphView>,
    graph: Seq<char>,
) -> bool {
    match resolve(names, subgraphs, graph) {
        Ok(i) => 0 <= i < subgraphs.len() && surface_consistent(subgraphs[i].schema)
            && subgraphs[i].schema.type_index("_Any"@).is_some(),
        Err(_) => false,
    }
}

/// The federation operations bring the scalar `_Any` to a schema that lacks
/// it, and to no other.
pub proof fn lemma_operations_any(s: SchemaView)
    ensures
        s.add_federation_operations() matches Ok(a) ==> s.type_index("_Any"@).is_none()
            && a.type_index("_Any"@).is_some(),
{
    if s.add_federation_operations() is Ok {
        reveal_strlit("_Any");
        reveal_strlit("_Entity");
        reveal_strlit("_Service");
        reveal_strlit("Query");
        assert("_Any"@.len() != "_Entity"@.len());
        assert("_Any"@.len() != "_Service"@.len());
        assert("_Any"@.len() != "Query"@.len());
        let s0 = s.insert_shell("_Any"@, TypeKind::Scalar, Seq::empty())->Ok_0;
        lemma_shell(s, "_Any"@, TypeKind::Scalar, Seq::empty(), "_Any"@);
        let s0b = s0.insert_shell("_Service"@, TypeKind::Object, Seq::empty())->Ok_0;
        lemma_shell(s0, "_Service"@, TypeKind::Object, Seq::empty(), "_Any"@);
        lemma_field(s0b, "_Service"@, sdl_field(), "_Any"@);
        let s1 = s.add_service_types()->Ok_0;
        let members = entity_names(s1);
        let s2 = s1.add_entity_union(members)->Ok_0;
        lemma_entity_union(s1, members, "_Any"@);
        let s3 = s2.ensure_query_root()->Ok_0;
        lemma_query_root(s2, "_Any"@);
        lemma_root_fields(s3, s3.query_type->0, members.len() > 0, "_Any"@);
    }
}

/// A registry in which one service got another schema resolves every value
/// of the graph enumeration to the position to which it resolved.
pub proof fn lemma_resolve_kept(
    names: Seq<(Seq<char>, Seq<char>)>,
    subgraphs: Seq<SubgraphView>,
    i: int,
    schema: SchemaView,
    graph: Seq<char>,
)
    requires
        0 <= i < subgraphs.len(),
    ensures
        resolve(
            names,
            with_schema(subgraphs, i, schema),
            graph,
        ) == resolve(names, subgraphs, graph),
{
    match lookup(names, graph) {
        Some(name) => {
            lemma_first_where_same(
                subgraphs,
                with_schema(subgraphs, i, schema),
                named(name),
            );
        },
        None => {},
    }
}

/// Completing the services from the entry `from` on, where those of the
/// entries before it have been completed, completes the service of every
/// entry.
pub proof fn lemma_complete_surface(
    names: Seq<(Seq<char>, Seq<char>)>,
    subgraphs: Seq<SubgraphView>,
    validate: bool,
    from: int,
)
    requires
        0 <= from <= names.len(),
        forall|k: int| 0 <= k < from ==> service_completed(names, subgraphs, (#[trigger] names[k]).0),
    ensures
        try_fold(names, from, subgraphs, complete_step(names, validate)) matches Ok(
            r,
        ) ==> forall|k: int|
            0 <= k < names.len() ==> service_completed(names, r, (#[trigger] names[k]).0),
    decreases names.len() - from,
{
    let step = complete_step(names, validate);
    if from < names.len() && step(subgraphs, names[from]) is Ok {
        let graph = names[from].0;
        let i = resolve(names, subgraphs, graph)->Ok_0;
        lemma_first_where(
            subgraphs,
            named(lookup(names, graph)->0),
        );
        let schema = complete_schema(subgraphs[i], validate)->Ok_0;
        lemma_entity_surface(subgraphs[i].schema);
        lemma_operations_any(subgraphs[i].schema);
        let next = with_schema(subgraphs, i, schema);
        assert forall|k: int| 0 <= k < from + 1 implies service_completed(
            names,
            next,
            (#[trigger] names[k]).0,
        ) by {
            lemma_resolve_kept(names, subgraphs, i, schema, names[k].0);
            if k < from {
                assert(service_completed(names, subgraphs, names[k].0));
            }
        }
        lemma_complete_surface(names, next, validate, from + 1);
    }
}

/// Entity surface consistency. In the services drawn from a supergraph, the
/// service of every value of the graph enumeration has a consistent entity
/// surface: a query root, which has the field `_entities` exactly where the
/// service has an object that carries a key, and the union `_Entity` where it
/// has one.
pub proof fn lemma_services_consistent(
    supergraph: SchemaView,
    validate_extracted_subgraphs: Option<bool>,
)
    ensures
        extraction(supergraph, validate_extracted_subgraphs) matches Ok(subgraphs)
            ==> {
            let names = origin_of(supergraph).names;
            forall|k: int|
                0 <= k < names.len() ==> service_consistent(names, subgraphs, (#[trigger] names[k]).0)
        },
{
    if extraction(supergraph, validate_extracted_subgraphs) is Ok {
        let o = origin_of(supergraph);
        let seeded = seed(supergraph, o.specs.join)->Ok_0;
        let populated = populate(
            supergraph,
            o.specs,
            o.names,
            seeded.subgraphs,
        )->Ok_0;
        let validate = validation_wanted(validate_extracted_subgraphs);
        lemma_complete_surface(o.names, populated, validate, 0);
        let r = complete(o.names, populated, validate)->Ok_0;
        assert forall|k: int| 0 <= k < o.names.len() implies service_consistent(
            o.names,
            r,
            (#[trigger] o.names[k]).0,
        ) by {
            assert(service_completed(o.names, r, o.names[k].0));
        }
    }
}

} // verus!
