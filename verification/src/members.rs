//! The members of the types of a schema, by name: fields, input fields, enum
//! values and union members. Every guarded edit adds at most the member that
//! it is asked to add, and removal and pruning add none.
use crate::closure::{lemma_filter_item, lemma_same_names_define};
use crate::edits::RootKind;
use crate::prune::{
    empty_shells, field_elsewhere, input_elsewhere, other_name, strip_field, strip_type,
    type_elsewhere,
};
use crate::schema::{
    DirectiveDefinitionView, DirectiveView, EnumValueView, FieldView, InputValueView, SchemaView,
    TypeDefinitionView, TypeKind,
};
use crate::seqs::{first_where, lemma_first_where};
use crate::surface::lemma_type_index;
use vstd::prelude::*;

verus! {

/// Whether the type has a field, an input field, an enum value or a union
/// member named `member`.
pub open spec fn type_has(t: TypeDefinitionView, member: Seq<char>) -> bool {
    ||| exists|j: int| 0 <= j < t.fields.len() && (#[trigger] t.fields[j]).name == member
    ||| exists|j: int| 0 <= j < t.input_fields.len() && (#[trigger] t.input_fields[j]).name == member
    ||| exists|j: int| 0 <= j < t.values.len() && (#[trigger] t.values[j]).name == member
    ||| t.members.contains(member)
}

/// Whether a type of the schema named `owner` has a member named `member`.
pub open spec fn has_member(s: SchemaView, owner: Seq<char>, member: Seq<char>) -> bool {
    exists|i: int|
        0 <= i < s.types.len() && (#[trigger] s.types[i]).name == owner && type_has(
            s.types[i],
            member,
        )
}

/// Whether `after` has no member that `before` lacks.
pub open spec fn no_new_member(before: SchemaView, after: SchemaView) -> bool {
    forall|owner: Seq<char>, member: Seq<char>| #[trigger]
        has_member(after, owner, member) ==> has_member(before, owner, member)
}

/// Whether `after` has no member that `before` lacks, but possibly the
/// member `member` of `owner`.
pub open spec fn one_new_member(
    before: SchemaView,
    after: SchemaView,
    owner: Seq<char>,
    member: Seq<char>,
) -> bool {
    forall|o: Seq<char>, m: Seq<char>| #[trigger]
        has_member(after, o, m) ==> has_member(before, o, m) || (o == owner && m == member)
}

/// Whether `after` has no member that `before` lacks, but possibly members
/// of `owner`.
pub open spec fn new_members_of(before: SchemaView, after: SchemaView, owner: Seq<char>) -> bool {
    forall|o: Seq<char>, m: Seq<char>| #[trigger]
        has_member(after, o, m) ==> has_member(before, o, m) || o == owner
}

/// A schema whose types are those of another, each with no member more, has
/// no new member.
pub proof fn lemma_same_members(before: SchemaView, after: SchemaView)
    requires
        after.types.len() == before.types.len(),
        forall|i: int|
            0 <= i < before.types.len() ==> (#[trigger] after.types[i]).name
                == before.types[i].name,
        forall|i: int, m: Seq<char>|
            0 <= i < before.types.len() && #[trigger] type_has(after.types[i], m) ==> type_has(
                before.types[i],
                m,
            ),
    ensures
        no_new_member(before, after),
{
    assert forall|owner: Seq<char>, member: Seq<char>| #[trigger]
        has_member(after, owner, member) implies has_member(before, owner, member) by {
        let i = choose|i: int|
            0 <= i < after.types.len() && (#[trigger] after.types[i]).name == owner && type_has(
                after.types[i],
                member,
            );
        assert(type_has(before.types[i], member));
        assert(before.types[i].name == owner);
    }
}

/// A schema in which one type got one member has that one new member.
pub proof fn lemma_one_more_member(
    before: SchemaView,
    i: int,
    t: TypeDefinitionView,
    member: Seq<char>,
)
    requires
        0 <= i < before.types.len(),
        t.name == before.types[i].name,
        forall|m: Seq<char>| #[trigger] type_has(t, m) ==> type_has(before.types[i], m) || m == member,
    ensures
        one_new_member(before, before.with_type(i, t), t.name, member),
{
    let after = before.with_type(i, t);
    assert forall|o: Seq<char>, m: Seq<char>| #[trigger] has_member(after, o, m) implies has_member(
        before,
        o,
        m,
    ) || (o == t.name && m == member) by {
        let k = choose|k: int|
            0 <= k < after.types.len() && (#[trigger] after.types[k]).name == o && type_has(
                after.types[k],
                m,
            );
        if k == i {
            if type_has(before.types[i], m) {
                assert(before.types[i].name == o);
            }
        } else {
            assert(before.types[k].name == o && type_has(before.types[k], m));
        }
    }
}

/// A shell brings no member.
pub proof fn lemma_insert_shell_members(
    s: SchemaView,
    name: Seq<char>,
    kind: TypeKind,
    directives: Seq<DirectiveView>,
)
    ensures
        s.insert_shell(name, kind, directives) matches Ok(a) ==> no_new_member(s, a),
{
    if s.insert_shell(name, kind, directives) is Ok {
        let a = s.insert_shell(name, kind, directives)->Ok_0;
        assert forall|owner: Seq<char>, member: Seq<char>| #[trigger]
            has_member(a, owner, member) implies has_member(s, owner, member) by {
            let k = choose|k: int|
                0 <= k < a.types.len() && (#[trigger] a.types[k]).name == owner && type_has(
                    a.types[k],
                    member,
                );
            if k < s.types.len() {
                assert(s.types[k].name == owner && type_has(s.types[k], member));
            }
        }
    }
}

/// A field brings the member of its name.
pub proof fn lemma_insert_field_members(
    s: SchemaView,
    owner: Seq<char>,
    kind: TypeKind,
    field: FieldView,
)
    ensures
        s.insert_field(owner, kind, field) matches Ok(a) ==> one_new_member(
            s,
            a,
            owner,
            field.name,
        ),
{
    if s.insert_field(owner, kind, field) is Ok {
        lemma_type_index(s, owner);
        let i = s.locate(owner, kind)->Ok_0;
        let t = s.types[i];
        let after_t = TypeDefinitionView { fields: t.fields.push(field), ..t };
        assert forall|m: Seq<char>| #[trigger] type_has(after_t, m) implies type_has(t, m) || m
            == field.name by {
            if exists|j: int|
                0 <= j < after_t.fields.len() && (#[trigger] after_t.fields[j]).name == m {
                let j = choose|j: int|
                    0 <= j < after_t.fields.len() && (#[trigger] after_t.fields[j]).name == m;
                if j < t.fields.len() {
                    assert(t.fields[j].name == m);
                }
            }
        }
        lemma_one_more_member(s, i, after_t, field.name);
    }
}

/// An input field brings the member of its name.
pub proof fn lemma_insert_input_field_members(s: SchemaView, owner: Seq<char>, field: InputValueView)
    ensures
        s.insert_input_field(owner, field) matches Ok(a) ==> one_new_member(
            s,
            a,
            owner,
            field.name,
        ),
{
    if s.insert_input_field(owner, field) is Ok {
        lemma_type_index(s, owner);
        let i = s.locate(owner, TypeKind::InputObject)->Ok_0;
        let t = s.types[i];
        let after_t = TypeDefinitionView { input_fields: t.input_fields.push(field), ..t };
        assert forall|m: Seq<char>| #[trigger] type_has(after_t, m) implies type_has(t, m) || m
            == field.name by {
            if exists|j: int|
                0 <= j < after_t.input_fields.len() && (#[trigger] after_t.input_fields[j]).name
                    == m {
                let j = choose|j: int|
                    0 <= j < after_t.input_fields.len() && (#[trigger] after_t.input_fields[j]).name
                        == m;
                if j < t.input_fields.len() {
                    assert(t.input_fields[j].name == m);
                }
            }
        }
        lemma_one_more_member(s, i, after_t, field.name);
    }
}

/// An enum value brings the member of its name.
pub proof fn lemma_insert_enum_value_members(s: SchemaView, owner: Seq<char>, value: Seq<char>)
    ensures
        s.insert_enum_value(owner, value) matches Ok(a) ==> one_new_member(s, a, owner, value),
{
    if s.insert_enum_value(owner, value) is Ok {
        lemma_type_index(s, owner);
        let i = s.locate(owner, TypeKind::Enum)->Ok_0;
        let t = s.types[i];
        let after_t = TypeDefinitionView {
            values: t.values.push(EnumValueView { name: value, directives: Seq::empty() }),
            ..t
        };
        assert forall|m: Seq<char>| #[trigger] type_has(after_t, m) implies type_has(t, m) || m
            == value by {
            if exists|j: int|
                0 <= j < after_t.values.len() && (#[trigger] after_t.values[j]).name == m {
                let j = choose|j: int|
                    0 <= j < after_t.values.len() && (#[trigger] after_t.values[j]).name == m;
                if j < t.values.len() {
                    assert(t.values[j].name == m);
                }
            }
        }
        lemma_one_more_member(s, i, after_t, value);
    }
}

/// A union member brings the member of its name.
pub proof fn lemma_insert_member_members(s: SchemaView, owner: Seq<char>, member: Seq<char>)
    ensures
        s.insert_member(owner, member) matches Ok(a) ==> one_new_member(s, a, owner, member),
{
    if s.insert_member(owner, member) is Ok {
        lemma_type_index(s, owner);
        let i = s.locate(owner, TypeKind::Union)->Ok_0;
        let t = s.types[i];
        if !t.members.contains(member) {
            let after_t = TypeDefinitionView { members: t.members.push(member), ..t };
            assert forall|m: Seq<char>| #[trigger] type_has(after_t, m) implies type_has(t, m) || m
                == member by {
                if after_t.members.contains(m) {
                    let j = choose|j: int| 0 <= j < after_t.members.len() && after_t.members[j] == m;
                    if j < t.members.len() {
                        assert(t.members[j] == m);
                    }
                }
            }
            lemma_one_more_member(s, i, after_t, member);
        }
    }
}

/// Whether `after` has every member that `before` has, and the member
/// `member` of `owner`.
pub open spec fn placed(
    before: SchemaView,
    after: SchemaView,
    owner: Seq<char>,
    member: Seq<char>,
) -> bool {
    &&& has_member(after, owner, member)
    &&& no_new_member(after, before)
}

/// Whether the two schemas define the same names.
pub open spec fn same_defined(a: SchemaView, b: SchemaView) -> bool {
    forall|n: Seq<char>| #![trigger a.defines(n)] #![trigger b.defines(n)] a.defines(n) == b.defines(n)
}

/// A union member that is added leaves the defined names as they are.
pub proof fn lemma_insert_member_defined(s: SchemaView, owner: Seq<char>, member: Seq<char>)
    ensures
        s.insert_member(owner, member) matches Ok(a) ==> same_defined(s, a),
{
    if s.insert_member(owner, member) is Ok {
        lemma_type_index(s, owner);
        lemma_same_names_define(s, s.insert_member(owner, member)->Ok_0);
    }
}

/// A schema in which one type lost no member has every member that it had.
pub proof fn lemma_members_stay(before: SchemaView, i: int, t: TypeDefinitionView)
    requires
        0 <= i < before.types.len(),
        t.name == before.types[i].name,
        forall|m: Seq<char>| #[trigger] type_has(before.types[i], m) ==> type_has(t, m),
    ensures
        no_new_member(before.with_type(i, t), before),
{
    let after = before.with_type(i, t);
    assert forall|o: Seq<char>, m: Seq<char>| #[trigger] has_member(before, o, m) implies has_member(
        after,
        o,
        m,
    ) by {
        let k = choose|k: int|
            0 <= k < before.types.len() && (#[trigger] before.types[k]).name == o && type_has(
                before.types[k],
                m,
            );
        assert(after.types[k].name == o && type_has(after.types[k], m));
    }
}

/// An implemented interface takes no member away.
pub proof fn lemma_insert_implements_keeps(
    s: SchemaView,
    owner: Seq<char>,
    kind: TypeKind,
    interface: Seq<char>,
)
    ensures
        s.insert_implements(owner, kind, interface) matches Ok(a) ==> no_new_member(a, s),
{
    if s.insert_implements(owner, kind, interface) is Ok {
        lemma_type_index(s, owner);
        let i = s.locate(owner, kind)->Ok_0;
        let t = s.types[i];
        if !t.implements.contains(interface) {
            let after_t = TypeDefinitionView { implements: t.implements.push(interface), ..t };
            lemma_type_has_more(t, after_t);
            lemma_members_stay(s, i, after_t);
        }
    }
}

/// A schema in which one type got a member, and lost none, has that member
/// and every member that it had.
pub proof fn lemma_member_placed(before: SchemaView, i: int, t: TypeDefinitionView, member: Seq<char>)
    requires
        0 <= i < before.types.len(),
        t.name == before.types[i].name,
        type_has(t, member),
        forall|m: Seq<char>| #[trigger] type_has(before.types[i], m) ==> type_has(t, m),
    ensures
        placed(before, before.with_type(i, t), t.name, member),
{
    let after = before.with_type(i, t);
    assert(after.types[i] == t);
    assert forall|o: Seq<char>, m: Seq<char>| #[trigger] has_member(before, o, m) implies has_member(
        after,
        o,
        m,
    ) by {
        let k = choose|k: int|
            0 <= k < before.types.len() && (#[trigger] before.types[k]).name == o && type_has(
                before.types[k],
                m,
            );
        assert(after.types[k].name == o && type_has(after.types[k], m));
    }
}

/// A type whose fields, input fields, values and members begin with those
/// of another has every member of the other.
proof fn lemma_type_has_more(t: TypeDefinitionView, u: TypeDefinitionView)
    requires
        t.fields.len() <= u.fields.len(),
        forall|j: int| 0 <= j < t.fields.len() ==> (#[trigger] u.fields[j]).name == t.fields[j].name,
        t.input_fields.len() <= u.input_fields.len(),
        forall|j: int|
            0 <= j < t.input_fields.len() ==> (#[trigger] u.input_fields[j]).name
                == t.input_fields[j].name,
        t.values.len() <= u.values.len(),
        forall|j: int| 0 <= j < t.values.len() ==> (#[trigger] u.values[j]).name == t.values[j].name,
        t.members.len() <= u.members.len(),
        forall|j: int| 0 <= j < t.members.len() ==> #[trigger] u.members[j] == t.members[j],
    ensures
        forall|m: Seq<char>| #[trigger] type_has(t, m) ==> type_has(u, m),
{
    assert forall|m: Seq<char>| #[trigger] type_has(t, m) implies type_has(u, m) by {
        if exists|j: int| 0 <= j < t.fields.len() && (#[trigger] t.fields[j]).name == m {
            let j = choose|j: int| 0 <= j < t.fields.len() && (#[trigger] t.fields[j]).name == m;
            assert(u.fields[j].name == m);
        } else if exists|j: int|
            0 <= j < t.input_fields.len() && (#[trigger] t.input_fields[j]).name == m {
            let j = choose|j: int|
                0 <= j < t.input_fields.len() && (#[trigger] t.input_fields[j]).name == m;
            assert(u.input_fields[j].name == m);
        } else if exists|j: int| 0 <= j < t.values.len() && (#[trigger] t.values[j]).name == m {
            let j = choose|j: int| 0 <= j < t.values.len() && (#[trigger] t.values[j]).name == m;
            assert(u.values[j].name == m);
        } else {
            let j = choose|j: int| 0 <= j < t.members.len() && t.members[j] == m;
            assert(u.members[j] == m);
        }
    }
}

/// A field that is added is a member of its type, and no member is lost.
pub proof fn lemma_insert_field_places(
    s: SchemaView,
    owner: Seq<char>,
    kind: TypeKind,
    field: FieldView,
)
    ensures
        s.insert_field(owner, kind, field) matches Ok(a) ==> placed(s, a, owner, field.name),
{
    if s.insert_field(owner, kind, field) is Ok {
        lemma_type_index(s, owner);
        let i = s.locate(owner, kind)->Ok_0;
        let t = s.types[i];
        let after_t = TypeDefinitionView { fields: t.fields.push(field), ..t };
        assert(after_t.fields[t.fields.len() as int].name == field.name);
        lemma_type_has_more(t, after_t);
        lemma_member_placed(s, i, after_t, field.name);
    }
}

/// An input field that is added is a member of its type, and no member is
/// lost.
pub proof fn lemma_insert_input_field_places(s: SchemaView, owner: Seq<char>, field: InputValueView)
    ensures
        s.insert_input_field(owner, field) matches Ok(a) ==> placed(s, a, owner, field.name),
{
    if s.insert_input_field(owner, field) is Ok {
        lemma_type_index(s, owner);
        let i = s.locate(owner, TypeKind::InputObject)->Ok_0;
        let t = s.types[i];
        let after_t = TypeDefinitionView { input_fields: t.input_fields.push(field), ..t };
        assert(after_t.input_fields[t.input_fields.len() as int].name == field.name);
        lemma_type_has_more(t, after_t);
        lemma_member_placed(s, i, after_t, field.name);
    }
}

/// An enum value that is added is a member of its type, and no member is
/// lost.
pub proof fn lemma_insert_enum_value_places(s: SchemaView, owner: Seq<char>, value: Seq<char>)
    ensures
        s.insert_enum_value(owner, value) matches Ok(a) ==> placed(s, a, owner, value),
{
    if s.insert_enum_value(owner, value) is Ok {
        lemma_type_index(s, owner);
        let i = s.locate(owner, TypeKind::Enum)->Ok_0;
        let t = s.types[i];
        let after_t = TypeDefinitionView {
            values: t.values.push(EnumValueView { name: value, directives: Seq::empty() }),
            ..t
        };
        assert(after_t.values[t.values.len() as int].name == value);
        lemma_type_has_more(t, after_t);
        lemma_member_placed(s, i, after_t, value);
    }
}

/// A union member that is added, or was there, is a member of its type, and
/// no member is lost.
pub proof fn lemma_insert_member_places(s: SchemaView, owner: Seq<char>, member: Seq<char>)
    ensures
        s.insert_member(owner, member) matches Ok(a) ==> placed(s, a, owner, member),
{
    if s.insert_member(owner, member) is Ok {
        lemma_type_index(s, owner);
        let i = s.locate(owner, TypeKind::Union)->Ok_0;
        let t = s.types[i];
        if t.members.contains(member) {
            assert(type_has(s.types[i], member));
        } else {
            let after_t = TypeDefinitionView { members: t.members.push(member), ..t };
            assert(after_t.members[t.members.len() as int] == member);
            lemma_type_has_more(t, after_t);
            lemma_member_placed(s, i, after_t, member);
        }
    }
}

/// A type that differs from another in what is no member has the same
/// members.
pub proof fn lemma_update_keeps_members(s: SchemaView, i: int, t: TypeDefinitionView)
    requires
        0 <= i < s.types.len(),
        t.name == s.types[i].name,
        t.fields == s.types[i].fields,
        t.input_fields == s.types[i].input_fields,
        t.values == s.types[i].values,
        t.members == s.types[i].members,
    ensures
        no_new_member(s, s.with_type(i, t)),
{
    let after = s.with_type(i, t);
    assert forall|k: int, m: Seq<char>|
        0 <= k < s.types.len() && #[trigger] type_has(after.types[k], m) implies type_has(
        s.types[k],
        m,
    ) by {}
    lemma_same_members(s, after);
}

/// An implemented interface brings no member.
pub proof fn lemma_insert_implements_members(
    s: SchemaView,
    owner: Seq<char>,
    kind: TypeKind,
    interface: Seq<char>,
)
    ensures
        s.insert_implements(owner, kind, interface) matches Ok(a) ==> no_new_member(s, a),
{
    if s.insert_implements(owner, kind, interface) is Ok {
        lemma_type_index(s, owner);
        let i = s.locate(owner, kind)->Ok_0;
        let t = s.types[i];
        if !t.implements.contains(interface) {
            lemma_update_keeps_members(
                s,
                i,
                TypeDefinitionView { implements: t.implements.push(interface), ..t },
            );
        }
    }
}

/// A directive on a type brings no member.
pub proof fn lemma_insert_type_directive_members(
    s: SchemaView,
    owner: Seq<char>,
    directive: DirectiveView,
)
    ensures
        s.insert_type_directive(owner, directive) matches Ok(a) ==> no_new_member(s, a),
{
    if s.insert_type_directive(owner, directive) is Ok {
        lemma_type_index(s, owner);
        let i = s.type_index(owner)->0;
        let t = s.types[i];
        lemma_update_keeps_members(
            s,
            i,
            TypeDefinitionView { directives: t.directives.push(directive), ..t },
        );
    }
}

/// A root operation brings no member.
pub proof fn lemma_insert_root_members(s: SchemaView, kind: RootKind, name: Seq<char>)
    ensures
        s.insert_root(kind, name) matches Ok(a) ==> no_new_member(s, a),
{
    if s.insert_root(kind, name) is Ok {
        let a = s.insert_root(kind, name)->Ok_0;
        assert(a.types == s.types);
        assert forall|owner: Seq<char>, member: Seq<char>| #[trigger]
            has_member(a, owner, member) implies has_member(s, owner, member) by {}
    }
}

/// A directive definition brings no member.
pub proof fn lemma_insert_directive_definition_members(s: SchemaView, d: DirectiveDefinitionView)
    ensures
        s.insert_directive_definition(d) matches Ok(a) ==> no_new_member(s, a),
{
    if s.insert_directive_definition(d) is Ok {
        let a = s.insert_directive_definition(d)->Ok_0;
        assert(a.types == s.types);
        assert forall|owner: Seq<char>, member: Seq<char>| #[trigger]
            has_member(a, owner, member) implies has_member(s, owner, member) by {}
    }
}

/// Removing fields brings no member.
pub proof fn lemma_remove_field_members(s: SchemaView, owner: Seq<char>, field: Seq<char>)
    ensures
        no_new_member(s, s.remove_field(owner, field)),
{
    let a = s.remove_field(owner, field);
    if s.locate(owner, TypeKind::Object) is Ok {
        lemma_type_index(s, owner);
        let i = s.locate(owner, TypeKind::Object)->Ok_0;
        let t = s.types[i];
        let p = |f: FieldView| f.name != field;
        let after_t = TypeDefinitionView { fields: t.fields.filter(p), ..t };
        assert forall|k: int, m: Seq<char>|
            0 <= k < s.types.len() && #[trigger] type_has(a.types[k], m) implies type_has(
            s.types[k],
            m,
        ) by {
            if k == i {
                if exists|j: int|
                    0 <= j < after_t.fields.len() && (#[trigger] after_t.fields[j]).name == m {
                    let j = choose|j: int|
                        0 <= j < after_t.fields.len() && (#[trigger] after_t.fields[j]).name == m;
                    lemma_filter_item(t.fields, p, j);
                    let q = choose|q: int|
                        0 <= q < t.fields.len() && #[trigger] t.fields[q] == t.fields.filter(p)[j];
                    assert(t.fields[q].name == m);
                }
            }
        }
        lemma_same_members(s, a);
    } else {
        assert forall|owner2: Seq<char>, member: Seq<char>| #[trigger]
            has_member(a, owner2, member) implies has_member(s, owner2, member) by {}
    }
}

/// A type stripped of what mentions a name has no member more.
proof fn lemma_strip_type_members(name: Seq<char>, t: TypeDefinitionView, m: Seq<char>)
    requires
        type_has(strip_type(name)(t), m),
    ensures
        type_has(t, m),
{
    let st = strip_type(name)(t);
    if exists|j: int| 0 <= j < st.fields.len() && (#[trigger] st.fields[j]).name == m {
        let j = choose|j: int| 0 <= j < st.fields.len() && (#[trigger] st.fields[j]).name == m;
        let kept = t.fields.filter(field_elsewhere(name));
        lemma_filter_item(t.fields, field_elsewhere(name), j);
        let q = choose|q: int| 0 <= q < t.fields.len() && #[trigger] t.fields[q] == kept[j];
        assert(st.fields[j] == strip_field(name)(kept[j]));
        assert(t.fields[q].name == m);
    } else if exists|j: int|
        0 <= j < st.input_fields.len() && (#[trigger] st.input_fields[j]).name == m {
        let j = choose|j: int|
            0 <= j < st.input_fields.len() && (#[trigger] st.input_fields[j]).name == m;
        lemma_filter_item(t.input_fields, input_elsewhere(name), j);
        let q = choose|q: int|
            0 <= q < t.input_fields.len() && #[trigger] t.input_fields[q] == t.input_fields.filter(
                input_elsewhere(name),
            )[j];
        assert(t.input_fields[q].name == m);
    } else if !exists|j: int| 0 <= j < st.values.len() && (#[trigger] st.values[j]).name == m {
        assert(st.members.contains(m));
        t.members.lemma_filter_contains_rev(other_name(name), m);
    }
}

/// Removing a type brings no member.
pub proof fn lemma_without_type_members(s: SchemaView, name: Seq<char>)
    ensures
        no_new_member(s, s.without_type(name)),
{
    let a = s.without_type(name);
    let kept = s.types.filter(type_elsewhere(name));
    assert forall|owner: Seq<char>, member: Seq<char>| #[trigger]
        has_member(a, owner, member) implies has_member(s, owner, member) by {
        let k = choose|k: int|
            0 <= k < a.types.len() && (#[trigger] a.types[k]).name == owner && type_has(
                a.types[k],
                member,
            );
        lemma_filter_item(s.types, type_elsewhere(name), k);
        let i = choose|i: int| 0 <= i < s.types.len() && #[trigger] s.types[i] == kept[k];
        assert(a.types[k] == strip_type(name)(kept[k]));
        lemma_strip_type_members(name, s.types[i], member);
        assert(s.types[i].name == owner);
    }
}

/// Rounds of pruning bring no member.
pub proof fn lemma_prune_rounds_members(s: SchemaView, rounds: nat)
    ensures
        no_new_member(s, s.prune_rounds(rounds)),
    decreases rounds,
{
    if rounds > 0 {
        lemma_first_where(s.types, empty_shells());
        match first_where(s.types, empty_shells()) {
            None => {},
            Some(i) => {
                let next = s.without_type(s.types[i].name);
                lemma_without_type_members(s, s.types[i].name);
                lemma_prune_rounds_members(next, (rounds - 1) as nat);
                assert forall|owner: Seq<char>, member: Seq<char>| #[trigger]
                    has_member(s.prune_rounds(rounds), owner, member) implies has_member(
                    s,
                    owner,
                    member,
                ) by {
                    assert(has_member(next.prune_rounds((rounds - 1) as nat), owner, member));
                    assert(has_member(next, owner, member));
                }
            },
        }
    }
}

/// Pruning brings no member.
pub proof fn lemma_prune_members(s: SchemaView)
    ensures
        no_new_member(s, s.prune()),
{
    lemma_prune_rounds_members(s, s.types.len());
}

} // verus!
