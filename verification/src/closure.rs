//! Referential closure: a schema is closed when every type that one of its
//! fields, arguments, members, interfaces, root operations or directive
//! definitions mentions is a type that it defines. Every guarded edit and
//! pruning keep a closed schema closed.
use crate::edits::{RootKind, is_builtin_scalar, shell};
use crate::federation::{key_arguments, link_arguments, preamble};
use crate::prune::{
    empty_shells, field_elsewhere, input_elsewhere, is_empty_shell, lemma_prune_no_empty_shells,
    other_name, strip_definition, strip_field, strip_type, type_elsewhere,
};
use crate::schema::{
    DirectiveDefinitionView, DirectiveView, EnumValueView, FieldView, InputValueView, SchemaView,
    TypeDefinitionView, TypeKind,
};
use crate::seqs::{first_where, lemma_first_where};
use crate::subgraphs::SubgraphView;
use vstd::prelude::*;

verus! {

impl SchemaView {
    /// Whether a type definition of the schema is named `name`.
    pub open spec fn has_type(self, name: Seq<char>) -> bool {
        exists|i: int| 0 <= i < self.types.len() && (#[trigger] self.types[i]).name == name
    }

    /// Whether the schema defines the type of the root operation `kind`,
    /// where it has one.
    pub open spec fn root_defined(self, kind: RootKind) -> bool {
        match self.root(kind) {
            Some(name) => self.defines(name),
            None => true,
        }
    }

    /// Whether the schema defines every type that the type definition `t`
    /// mentions.
    pub open spec fn type_closed(self, t: TypeDefinitionView) -> bool {
        &&& forall|j: int|
            0 <= j < t.fields.len() ==> self.defines_all((#[trigger] t.fields[j]).references())
        &&& forall|j: int|
            0 <= j < t.input_fields.len() ==> self.defines((#[trigger] t.input_fields[j]).ty.name)
        &&& self.defines_all(t.members)
        &&& self.defines_all(t.implements)
    }

    /// Whether the schema defines every type that it mentions: in the fields
    /// and their arguments, the input fields, the union members and the
    /// implemented interfaces of its types, in the arguments of its directive
    /// definitions, and as its root operations.
    pub open spec fn closed(self) -> bool {
        &&& forall|i: int| 0 <= i < self.types.len() ==> self.type_closed(#[trigger] self.types[i])
        &&& forall|i: int|
            0 <= i < self.directive_definitions.len() ==> self.defines_all(
                (#[trigger] self.directive_definitions[i]).references(),
            )
        &&& self.root_defined(RootKind::Query)
        &&& self.root_defined(RootKind::Mutation)
        &&& self.root_defined(RootKind::Subscription)
    }
}

/// Whether every schema of the registry is closed.
pub open spec fn all_closed(subgraphs: Seq<SubgraphView>) -> bool {
    forall|i: int| 0 <= i < subgraphs.len() ==> (#[trigger] subgraphs[i]).schema.closed()
}

/// A schema defines a name when the name is that of a built-in scalar or of
/// one of its type definitions.
pub proof fn lemma_defines(s: SchemaView, name: Seq<char>)
    ensures
        s.defines(name) <==> is_builtin_scalar(name) || s.has_type(name),
        s.type_index(name) matches Some(i) ==> 0 <= i < s.types.len() && s.types[i].name == name,
{
    let p = |t: TypeDefinitionView| t.name == name;
    lemma_first_where(s.types, p);
    if s.has_type(name) {
        let i = choose|i: int| 0 <= i < s.types.len() && (#[trigger] s.types[i]).name == name;
        assert(p(s.types[i]));
    }
}

/// Two schemas with the same names of types, position by position, define
/// the same names.
pub proof fn lemma_same_names_define(a: SchemaView, b: SchemaView)
    requires
        a.types.len() == b.types.len(),
        forall|i: int| 0 <= i < a.types.len() ==> (#[trigger] a.types[i]).name == b.types[i].name,
    ensures
        forall|n: Seq<char>| a.defines(n) <==> b.defines(n),
{
    assert forall|n: Seq<char>| a.defines(n) <==> b.defines(n) by {
        lemma_defines(a, n);
        lemma_defines(b, n);
        if a.has_type(n) {
            let i = choose|i: int| 0 <= i < a.types.len() && (#[trigger] a.types[i]).name == n;
            assert(b.types[i].name == n);
        }
        if b.has_type(n) {
            let i = choose|i: int| 0 <= i < b.types.len() && (#[trigger] b.types[i]).name == n;
            assert(a.types[i].name == n);
        }
    }
}

/// A schema with one type more defines what the schema without it defines.
pub proof fn lemma_push_defines(a: SchemaView, b: SchemaView, t: TypeDefinitionView)
    requires
        b.types == a.types.push(t),
    ensures
        forall|n: Seq<char>| a.defines(n) ==> b.defines(n),
        b.defines(t.name),
{
    assert forall|n: Seq<char>| a.defines(n) implies b.defines(n) by {
        lemma_defines(a, n);
        lemma_defines(b, n);
        if a.has_type(n) {
            let i = choose|i: int| 0 <= i < a.types.len() && (#[trigger] a.types[i]).name == n;
            assert(b.types[i].name == n);
        }
    }
    lemma_defines(b, t.name);
    assert(b.types[a.types.len() as int].name == t.name);
}

/// What the types of a schema mention stays defined in a schema that defines
/// at least as much.
pub proof fn lemma_type_closed_grows(a: SchemaView, b: SchemaView, t: TypeDefinitionView)
    requires
        a.type_closed(t),
        forall|n: Seq<char>| a.defines(n) ==> b.defines(n),
    ensures
        b.type_closed(t),
{
    assert forall|j: int| 0 <= j < t.fields.len() implies b.defines_all(
        (#[trigger] t.fields[j]).references(),
    ) by {
        let refs = t.fields[j].references();
        assert(a.defines_all(refs));
        assert forall|k: int| 0 <= k < refs.len() implies b.defines(#[trigger] refs[k]) by {
            assert(a.defines(refs[k]));
        }
    }
    assert forall|k: int| 0 <= k < t.members.len() implies b.defines(#[trigger] t.members[k]) by {
        assert(a.defines(t.members[k]));
    }
    assert forall|k: int| 0 <= k < t.implements.len() implies b.defines(
        #[trigger] t.implements[k],
    ) by {
        assert(a.defines(t.implements[k]));
    }
}

/// A closed schema in which one type is replaced by a type of the same name
/// that mentions defined types only is closed.
pub proof fn lemma_update_closed(s: SchemaView, i: int, t: TypeDefinitionView)
    requires
        s.closed(),
        0 <= i < s.types.len(),
        t.name == s.types[i].name,
        s.type_closed(t),
    ensures
        s.with_type(i, t).closed(),
{
    let after = s.with_type(i, t);
    lemma_same_names_define(s, after);
    assert forall|k: int| 0 <= k < after.types.len() implies after.type_closed(
        #[trigger] after.types[k],
    ) by {
        if k == i {
            lemma_type_closed_grows(s, after, t);
        } else {
            assert(s.type_closed(s.types[k]));
            lemma_type_closed_grows(s, after, s.types[k]);
        }
    }
    assert forall|k: int| 0 <= k < after.directive_definitions.len() implies after.defines_all(
        (#[trigger] after.directive_definitions[k]).references(),
    ) by {
        let refs = s.directive_definitions[k].references();
        assert(s.defines_all(refs));
        assert forall|m: int| 0 <= m < refs.len() implies after.defines(#[trigger] refs[m]) by {
            assert(s.defines(refs[m]));
        }
    }
    assert(s.root_defined(RootKind::Query));
    assert(s.root_defined(RootKind::Mutation));
    assert(s.root_defined(RootKind::Subscription));
}

/// A closed schema with one more type, which mentions defined types only, is
/// closed.
pub proof fn lemma_push_closed(s: SchemaView, t: TypeDefinitionView)
    requires
        s.closed(),
        (SchemaView { types: s.types.push(t), ..s }).type_closed(t),
    ensures
        (SchemaView { types: s.types.push(t), ..s }).closed(),
{
    let after = SchemaView { types: s.types.push(t), ..s };
    lemma_push_defines(s, after, t);
    assert forall|k: int| 0 <= k < after.types.len() implies after.type_closed(
        #[trigger] after.types[k],
    ) by {
        if k < s.types.len() {
            assert(s.type_closed(s.types[k]));
            lemma_type_closed_grows(s, after, s.types[k]);
        }
    }
    assert forall|k: int| 0 <= k < after.directive_definitions.len() implies after.defines_all(
        (#[trigger] after.directive_definitions[k]).references(),
    ) by {
        let refs = s.directive_definitions[k].references();
        assert(s.defines_all(refs));
        assert forall|m: int| 0 <= m < refs.len() implies after.defines(#[trigger] refs[m]) by {
            assert(s.defines(refs[m]));
        }
    }
    assert(s.root_defined(RootKind::Query));
    assert(s.root_defined(RootKind::Mutation));
    assert(s.root_defined(RootKind::Subscription));
}

/// Adding a shell keeps a closed schema closed.
pub proof fn lemma_insert_shell_closed(
    s: SchemaView,
    name: Seq<char>,
    kind: TypeKind,
    directives: Seq<DirectiveView>,
)
    requires
        s.closed(),
    ensures
        s.insert_shell(name, kind, directives) matches Ok(after) ==> after.closed(),
{
    if s.insert_shell(name, kind, directives) is Ok {
        lemma_push_closed(s, shell(name, kind, directives));
    }
}

/// Adding a field keeps a closed schema closed.
pub proof fn lemma_insert_field_closed(
    s: SchemaView,
    owner: Seq<char>,
    kind: TypeKind,
    field: FieldView,
)
    requires
        s.closed(),
    ensures
        s.insert_field(owner, kind, field) matches Ok(after) ==> after.closed(),
{
    if s.insert_field(owner, kind, field) is Ok {
        lemma_defines(s, owner);
        let i = s.locate(owner, kind)->Ok_0;
        let t = s.types[i];
        let after_t = TypeDefinitionView { fields: t.fields.push(field), ..t };
        assert(s.type_closed(t));
        assert forall|j: int| 0 <= j < after_t.fields.len() implies s.defines_all(
            (#[trigger] after_t.fields[j]).references(),
        ) by {
            if j < t.fields.len() {
                assert(after_t.fields[j] == t.fields[j]);
            }
        }
        lemma_update_closed(s, i, after_t);
    }
}

/// Adding an input field keeps a closed schema closed.
pub proof fn lemma_insert_input_field_closed(s: SchemaView, owner: Seq<char>, field: InputValueView)
    requires
        s.closed(),
    ensures
        s.insert_input_field(owner, field) matches Ok(after) ==> after.closed(),
{
    if s.insert_input_field(owner, field) is Ok {
        lemma_defines(s, owner);
        let i = s.locate(owner, TypeKind::InputObject)->Ok_0;
        let t = s.types[i];
        let after_t = TypeDefinitionView { input_fields: t.input_fields.push(field), ..t };
        assert(s.type_closed(t));
        assert forall|j: int| 0 <= j < after_t.input_fields.len() implies s.defines(
            (#[trigger] after_t.input_fields[j]).ty.name,
        ) by {
            if j < t.input_fields.len() {
                assert(after_t.input_fields[j] == t.input_fields[j]);
            }
        }
        lemma_update_closed(s, i, after_t);
    }
}

/// Adding an enum value keeps a closed schema closed.
pub proof fn lemma_insert_enum_value_closed(s: SchemaView, owner: Seq<char>, value: Seq<char>)
    requires
        s.closed(),
    ensures
        s.insert_enum_value(owner, value) matches Ok(after) ==> after.closed(),
{
    if s.insert_enum_value(owner, value) is Ok {
        lemma_defines(s, owner);
        let i = s.locate(owner, TypeKind::Enum)->Ok_0;
        let t = s.types[i];
        assert(s.type_closed(t));
        lemma_update_closed(
            s,
            i,
            TypeDefinitionView {
                values: t.values.push(
                    EnumValueView { name: value, directives: Seq::empty() },
                ),
                ..t
            },
        );
    }
}

/// Adding a union member keeps a closed schema closed.
pub proof fn lemma_insert_member_closed(s: SchemaView, owner: Seq<char>, member: Seq<char>)
    requires
        s.closed(),
    ensures
        s.insert_member(owner, member) matches Ok(after) ==> after.closed(),
{
    if s.insert_member(owner, member) is Ok {
        lemma_defines(s, owner);
        let i = s.locate(owner, TypeKind::Union)->Ok_0;
        let t = s.types[i];
        if !t.members.contains(member) {
            let after_t = TypeDefinitionView { members: t.members.push(member), ..t };
            assert(s.type_closed(t));
            assert forall|k: int| 0 <= k < after_t.members.len() implies s.defines(
                #[trigger] after_t.members[k],
            ) by {
                if k < t.members.len() {
                    assert(s.defines(t.members[k]));
                }
            }
            lemma_update_closed(s, i, after_t);
        }
    }
}

/// Recording an implemented interface keeps a closed schema closed.
pub proof fn lemma_insert_implements_closed(
    s: SchemaView,
    owner: Seq<char>,
    kind: TypeKind,
    interface: Seq<char>,
)
    requires
        s.closed(),
    ensures
        s.insert_implements(owner, kind, interface) matches Ok(after) ==> after.closed(),
{
    if s.insert_implements(owner, kind, interface) is Ok {
        lemma_defines(s, owner);
        let i = s.locate(owner, kind)->Ok_0;
        let t = s.types[i];
        if !t.implements.contains(interface) {
            let after_t = TypeDefinitionView { implements: t.implements.push(interface), ..t };
            assert(s.type_closed(t));
            assert forall|k: int| 0 <= k < after_t.implements.len() implies s.defines(
                #[trigger] after_t.implements[k],
            ) by {
                if k < t.implements.len() {
                    assert(s.defines(t.implements[k]));
                }
            }
            lemma_update_closed(s, i, after_t);
        }
    }
}

/// Applying a directive to a type keeps a closed schema closed.
pub proof fn lemma_insert_type_directive_closed(
    s: SchemaView,
    owner: Seq<char>,
    directive: DirectiveView,
)
    requires
        s.closed(),
    ensures
        s.insert_type_directive(owner, directive) matches Ok(after) ==> after.closed(),
{
    if s.insert_type_directive(owner, directive) is Ok {
        lemma_defines(s, owner);
        let i = s.type_index(owner)->0;
        let t = s.types[i];
        assert(s.type_closed(t));
        lemma_update_closed(
            s,
            i,
            TypeDefinitionView { directives: t.directives.push(directive), ..t },
        );
    }
}

/// Setting a root operation keeps a closed schema closed.
pub proof fn lemma_insert_root_closed(s: SchemaView, kind: RootKind, name: Seq<char>)
    requires
        s.closed(),
    ensures
        s.insert_root(kind, name) matches Ok(after) ==> after.closed(),
{
    if s.insert_root(kind, name) is Ok {
        let after = s.insert_root(kind, name)->Ok_0;
        lemma_same_names_define(s, after);
        assert(s.defines(name));
        assert forall|k: int| 0 <= k < after.types.len() implies after.type_closed(
            #[trigger] after.types[k],
        ) by {
            assert(s.type_closed(s.types[k]));
            lemma_type_closed_grows(s, after, s.types[k]);
        }
        assert forall|k: int| 0 <= k < after.directive_definitions.len() implies after.defines_all(
            (#[trigger] after.directive_definitions[k]).references(),
        ) by {
            let refs = s.directive_definitions[k].references();
            assert(s.defines_all(refs));
            assert forall|m: int| 0 <= m < refs.len() implies after.defines(#[trigger] refs[m]) by {
                assert(s.defines(refs[m]));
            }
        }
        assert(s.root_defined(RootKind::Query));
        assert(s.root_defined(RootKind::Mutation));
        assert(s.root_defined(RootKind::Subscription));
    }
}

/// Adding a directive definition keeps a closed schema closed.
pub proof fn lemma_insert_directive_definition_closed(s: SchemaView, d: DirectiveDefinitionView)
    requires
        s.closed(),
    ensures
        s.insert_directive_definition(d) matches Ok(after) ==> after.closed(),
{
    if s.insert_directive_definition(d) is Ok {
        let after = s.insert_directive_definition(d)->Ok_0;
        lemma_same_names_define(s, after);
        assert forall|k: int| 0 <= k < after.types.len() implies after.type_closed(
            #[trigger] after.types[k],
        ) by {
            assert(s.type_closed(s.types[k]));
            lemma_type_closed_grows(s, after, s.types[k]);
        }
        assert forall|k: int| 0 <= k < after.directive_definitions.len() implies after.defines_all(
            (#[trigger] after.directive_definitions[k]).references(),
        ) by {
            let refs = after.directive_definitions[k].references();
            if k < s.directive_definitions.len() {
                assert(s.defines_all(s.directive_definitions[k].references()));
            } else {
                assert(s.defines_all(d.references()));
            }
            assert forall|m: int| 0 <= m < refs.len() implies after.defines(#[trigger] refs[m]) by {
                assert(s.defines(refs[m]));
            }
        }
        assert(s.root_defined(RootKind::Query));
        assert(s.root_defined(RootKind::Mutation));
        assert(s.root_defined(RootKind::Subscription));
    }
}

/// Each item that a filter keeps is an item of the sequence, and one that
/// the filter accepts.
pub proof fn lemma_filter_item<T>(s: Seq<T>, p: spec_fn(T) -> bool, j: int)
    requires
        0 <= j < s.filter(p).len(),
    ensures
        p(s.filter(p)[j]),
        exists|k: int| 0 <= k < s.len() && #[trigger] s[k] == s.filter(p)[j],
{
    s.lemma_filter_pred(p, j);
    assert(s.filter(p).contains(s.filter(p)[j]));
    s.lemma_filter_contains_rev(p, s.filter(p)[j]);
}

/// Removing fields keeps a closed schema closed.
pub proof fn lemma_remove_field_closed(s: SchemaView, owner: Seq<char>, field: Seq<char>)
    requires
        s.closed(),
    ensures
        s.remove_field(owner, field).closed(),
{
    if s.locate(owner, TypeKind::Object) is Ok {
        lemma_defines(s, owner);
        let i = s.locate(owner, TypeKind::Object)->Ok_0;
        let t = s.types[i];
        let p = |f: FieldView| f.name != field;
        let after_t = TypeDefinitionView { fields: t.fields.filter(p), ..t };
        assert(s.type_closed(t));
        assert forall|j: int| 0 <= j < after_t.fields.len() implies s.defines_all(
            (#[trigger] after_t.fields[j]).references(),
        ) by {
            lemma_filter_item(t.fields, p, j);
            let k = choose|k: int| 0 <= k < t.fields.len() && #[trigger] t.fields[k] == t.fields.filter(p)[j];
            assert(s.defines_all(t.fields[k].references()));
        }
        lemma_update_closed(s, i, after_t);
    }
}

/// A schema without the type `name` still defines every other name that it
/// defined.
pub proof fn lemma_without_type_defines(s: SchemaView, name: Seq<char>, n: Seq<char>)
    requires
        s.defines(n),
        n != name,
    ensures
        s.without_type(name).defines(n),
{
    let after = s.without_type(name);
    lemma_defines(s, n);
    lemma_defines(after, n);
    if s.has_type(n) {
        let i = choose|i: int| 0 <= i < s.types.len() && (#[trigger] s.types[i]).name == n;
        let kept = s.types.filter(type_elsewhere(name));
        s.types.lemma_filter_contains(type_elsewhere(name), i);
        let k = choose|k: int| 0 <= k < kept.len() && kept[k] == s.types[i];
        assert(after.types[k].name == n);
    }
}

/// What the arguments that stay mention was mentioned before, and is not the
/// removed name.
proof fn lemma_stripped_inputs(
    s: SchemaView,
    name: Seq<char>,
    inputs: Seq<InputValueView>,
    j: int,
)
    requires
        forall|q: int| 0 <= q < inputs.len() ==> s.defines((#[trigger] inputs[q]).ty.name),
        0 <= j < inputs.filter(input_elsewhere(name)).len(),
    ensures
        s.without_type(name).defines(inputs.filter(input_elsewhere(name))[j].ty.name),
{
    lemma_filter_item(inputs, input_elsewhere(name), j);
    let kept = inputs.filter(input_elsewhere(name));
    let q = choose|q: int| 0 <= q < inputs.len() && #[trigger] inputs[q] == kept[j];
    assert(s.defines(inputs[q].ty.name));
    lemma_without_type_defines(s, name, kept[j].ty.name);
}

/// What the names that stay mention was mentioned before, and is not the
/// removed name.
proof fn lemma_stripped_names(s: SchemaView, name: Seq<char>, names: Seq<Seq<char>>)
    requires
        s.defines_all(names),
    ensures
        s.without_type(name).defines_all(names.filter(other_name(name))),
{
    let kept = names.filter(other_name(name));
    assert forall|j: int| 0 <= j < kept.len() implies s.without_type(name).defines(
        #[trigger] kept[j],
    ) by {
        lemma_filter_item(names, other_name(name), j);
        let q = choose|q: int| 0 <= q < names.len() && #[trigger] names[q] == kept[j];
        assert(s.defines(names[q]));
        lemma_without_type_defines(s, name, kept[j]);
    }
}

/// A type of a closed schema, stripped of what mentions `name`, mentions
/// only what the schema without `name` defines.
proof fn lemma_stripped_type_closed(s: SchemaView, name: Seq<char>, t: TypeDefinitionView)
    requires
        s.type_closed(t),
    ensures
        s.without_type(name).type_closed(strip_type(name)(t)),
{
    let after = s.without_type(name);
    let st = strip_type(name)(t);
    let kept_fields = t.fields.filter(field_elsewhere(name));
    assert forall|j: int| 0 <= j < st.fields.len() implies after.defines_all(
        (#[trigger] st.fields[j]).references(),
    ) by {
        lemma_filter_item(t.fields, field_elsewhere(name), j);
        let m = choose|m: int| 0 <= m < t.fields.len() && #[trigger] t.fields[m] == kept_fields[j];
        let f = t.fields[m];
        assert(s.defines_all(f.references()));
        assert(f.references()[0] == f.ty.name);
        assert(s.defines(f.ty.name));
        assert forall|q: int| 0 <= q < f.arguments.len() implies s.defines(
            (#[trigger] f.arguments[q]).ty.name,
        ) by {
            assert(f.references()[q + 1] == f.arguments[q].ty.name);
        }
        let sf = st.fields[j];
        assert(sf == strip_field(name)(f));
        let refs = sf.references();
        assert forall|k: int| 0 <= k < refs.len() implies after.defines(#[trigger] refs[k]) by {
            if k == 0 {
                lemma_without_type_defines(s, name, f.ty.name);
            } else {
                lemma_stripped_inputs(s, name, f.arguments, k - 1);
                assert(refs[k] == sf.arguments[k - 1].ty.name);
            }
        }
    }
    assert forall|j: int| 0 <= j < st.input_fields.len() implies after.defines(
        (#[trigger] st.input_fields[j]).ty.name,
    ) by {
        lemma_stripped_inputs(s, name, t.input_fields, j);
    }
    lemma_stripped_names(s, name, t.members);
    lemma_stripped_names(s, name, t.implements);
}

/// Removing a type, with everything that mentions it, keeps a closed schema
/// closed.
pub proof fn lemma_without_type_closed(s: SchemaView, name: Seq<char>)
    requires
        s.closed(),
    ensures
        s.without_type(name).closed(),
{
    let after = s.without_type(name);
    let kept = s.types.filter(type_elsewhere(name));
    assert forall|k: int| 0 <= k < after.types.len() implies after.type_closed(
        #[trigger] after.types[k],
    ) by {
        lemma_filter_item(s.types, type_elsewhere(name), k);
        let i = choose|i: int| 0 <= i < s.types.len() && #[trigger] s.types[i] == kept[k];
        assert(s.type_closed(s.types[i]));
        lemma_stripped_type_closed(s, name, s.types[i]);
    }
    assert forall|k: int| 0 <= k < after.directive_definitions.len() implies after.defines_all(
        (#[trigger] after.directive_definitions[k]).references(),
    ) by {
        let d = s.directive_definitions[k];
        assert(s.defines_all(d.references()));
        assert forall|q: int| 0 <= q < d.arguments.len() implies s.defines(
            (#[trigger] d.arguments[q]).ty.name,
        ) by {
            assert(d.references()[q] == d.arguments[q].ty.name);
        }
        let sd = after.directive_definitions[k];
        assert(sd == strip_definition(name)(d));
        let refs = sd.references();
        assert forall|m: int| 0 <= m < refs.len() implies after.defines(#[trigger] refs[m]) by {
            lemma_stripped_inputs(s, name, d.arguments, m);
            assert(refs[m] == sd.arguments[m].ty.name);
        }
    }
    assert(s.root_defined(RootKind::Query));
    assert(s.root_defined(RootKind::Mutation));
    assert(s.root_defined(RootKind::Subscription));
    if s.query_type is Some && s.query_type != Some(name) {
        lemma_without_type_defines(s, name, s.query_type->0);
    }
    if s.mutation_type is Some && s.mutation_type != Some(name) {
        lemma_without_type_defines(s, name, s.mutation_type->0);
    }
    if s.subscription_type is Some && s.subscription_type != Some(name) {
        lemma_without_type_defines(s, name, s.subscription_type->0);
    }
}

/// Rounds of pruning keep a closed schema closed.
pub proof fn lemma_prune_rounds_closed(s: SchemaView, rounds: nat)
    requires
        s.closed(),
    ensures
        s.prune_rounds(rounds).closed(),
    decreases rounds,
{
    if rounds > 0 {
        lemma_first_where(s.types, empty_shells());
        match first_where(s.types, empty_shells()) {
            None => {},
            Some(i) => {
                lemma_without_type_closed(s, s.types[i].name);
                lemma_prune_rounds_closed(
                    s.without_type(s.types[i].name),
                    (rounds - 1) as nat,
                );
            },
        }
    }
}

/// Pruning keeps a closed schema closed: it leaves no reference to a type
/// that it removed.
pub proof fn lemma_prune_closed(s: SchemaView)
    requires
        s.closed(),
    ensures
        s.prune().closed(),
{
    lemma_prune_rounds_closed(s, s.types.len());
}

/// Whether the type definition mentions `name`: as the type of a field, of an
/// argument or of an input field, as a member, or as an interface that it
/// implements.
pub open spec fn type_mentions(t: TypeDefinitionView, name: Seq<char>) -> bool {
    ||| exists|j: int|
        0 <= j < t.fields.len() && (#[trigger] t.fields[j]).references().contains(name)
    ||| exists|j: int| 0 <= j < t.input_fields.len() && (#[trigger] t.input_fields[j]).ty.name == name
    ||| t.members.contains(name)
    ||| t.implements.contains(name)
}

impl SchemaView {
    /// Whether a type definition of the schema named `name` is an empty
    /// shell.
    pub open spec fn has_empty_shell(self, name: Seq<char>) -> bool {
        exists|i: int|
            0 <= i < self.types.len() && (#[trigger] self.types[i]).name == name && is_empty_shell(
                self.types[i],
            )
    }

    /// Whether anything in the schema mentions `name`: one of its types, an
    /// argument of one of its directive definitions, or a root operation.
    pub open spec fn mentions(self, name: Seq<char>) -> bool {
        ||| exists|i: int| 0 <= i < self.types.len() && type_mentions(#[trigger] self.types[i], name)
        ||| exists|i: int|
            0 <= i < self.directive_definitions.len() && (
            #[trigger] self.directive_definitions[i]).references().contains(name)
        ||| self.query_type == Some(name)
        ||| self.mutation_type == Some(name)
        ||| self.subscription_type == Some(name)
    }
}

/// A closed schema defines every name that it mentions.
pub proof fn lemma_closed_mentions(s: SchemaView, name: Seq<char>)
    requires
        s.closed(),
        s.mentions(name),
    ensures
        s.defines(name),
{
    assert(s.root_defined(RootKind::Query));
    assert(s.root_defined(RootKind::Mutation));
    assert(s.root_defined(RootKind::Subscription));
    if exists|i: int| 0 <= i < s.types.len() && type_mentions(#[trigger] s.types[i], name) {
        let i = choose|i: int| 0 <= i < s.types.len() && type_mentions(#[trigger] s.types[i], name);
        let t = s.types[i];
        assert(s.type_closed(t));
        if exists|j: int|
            0 <= j < t.fields.len() && (#[trigger] t.fields[j]).references().contains(name) {
            let j = choose|j: int|
                0 <= j < t.fields.len() && (#[trigger] t.fields[j]).references().contains(name);
            let refs = t.fields[j].references();
            assert(s.defines_all(refs));
            let k = choose|k: int| 0 <= k < refs.len() && refs[k] == name;
            assert(s.defines(refs[k]));
        } else if exists|j: int|
            0 <= j < t.input_fields.len() && (#[trigger] t.input_fields[j]).ty.name == name {
            let j = choose|j: int|
                0 <= j < t.input_fields.len() && (#[trigger] t.input_fields[j]).ty.name == name;
            assert(s.defines(t.input_fields[j].ty.name));
        } else if t.members.contains(name) {
            let k = choose|k: int| 0 <= k < t.members.len() && t.members[k] == name;
            assert(s.defines(t.members[k]));
        } else {
            let k = choose|k: int| 0 <= k < t.implements.len() && t.implements[k] == name;
            assert(s.defines(t.implements[k]));
        }
    } else if exists|i: int|
        0 <= i < s.directive_definitions.len() && (
        #[trigger] s.directive_definitions[i]).references().contains(name) {
        let i = choose|i: int|
            0 <= i < s.directive_definitions.len() && (
            #[trigger] s.directive_definitions[i]).references().contains(name);
        let refs = s.directive_definitions[i].references();
        assert(s.defines_all(refs));
        let k = choose|k: int| 0 <= k < refs.len() && refs[k] == name;
        assert(s.defines(refs[k]));
    }
}

/// What the arguments that stay mention was mentioned before, and is not the
/// removed name.
proof fn lemma_kept_inputs_mention(
    inputs: Seq<InputValueView>,
    removed: Seq<char>,
    name: Seq<char>,
    j: int,
)
    requires
        0 <= j < inputs.filter(input_elsewhere(removed)).len(),
        inputs.filter(input_elsewhere(removed))[j].ty.name == name,
    ensures
        name != removed,
        exists|q: int| 0 <= q < inputs.len() && (#[trigger] inputs[q]).ty.name == name,
{
    lemma_filter_item(inputs, input_elsewhere(removed), j);
    let kept = inputs.filter(input_elsewhere(removed));
    let q = choose|q: int| 0 <= q < inputs.len() && #[trigger] inputs[q] == kept[j];
    assert(inputs[q].ty.name == name);
}

/// A name that stays among those filtered was among them before, and is not
/// the removed name.
proof fn lemma_kept_names_mention(names: Seq<Seq<char>>, removed: Seq<char>, name: Seq<char>)
    requires
        names.filter(other_name(removed)).contains(name),
    ensures
        name != removed,
        names.contains(name),
{
    let kept = names.filter(other_name(removed));
    let j = choose|j: int| 0 <= j < kept.len() && kept[j] == name;
    lemma_filter_item(names, other_name(removed), j);
    let q = choose|q: int| 0 <= q < names.len() && #[trigger] names[q] == kept[j];
    assert(names[q] == name);
}

/// What a type stripped of a removed name mentions, the type mentioned
/// before, and it is not the removed name.
proof fn lemma_stripped_type_mentions(t: TypeDefinitionView, removed: Seq<char>, name: Seq<char>)
    requires
        type_mentions(strip_type(removed)(t), name),
    ensures
        name != removed,
        type_mentions(t, name),
{
    let st = strip_type(removed)(t);
    let kept_fields = t.fields.filter(field_elsewhere(removed));
    if exists|j: int|
        0 <= j < st.fields.len() && (#[trigger] st.fields[j]).references().contains(name) {
        let j = choose|j: int|
            0 <= j < st.fields.len() && (#[trigger] st.fields[j]).references().contains(name);
        lemma_filter_item(t.fields, field_elsewhere(removed), j);
        let m = choose|m: int| 0 <= m < t.fields.len() && #[trigger] t.fields[m] == kept_fields[j];
        let f = t.fields[m];
        let sf = st.fields[j];
        assert(sf == strip_field(removed)(f));
        let refs = sf.references();
        let k = choose|k: int| 0 <= k < refs.len() && refs[k] == name;
        if k == 0 {
            assert(f.references()[0] == name);
        } else {
            assert(refs[k] == sf.arguments[k - 1].ty.name);
            lemma_kept_inputs_mention(f.arguments, removed, name, k - 1);
            let q = choose|q: int| 0 <= q < f.arguments.len() && (#[trigger] f.arguments[q]).ty.name == name;
            assert(f.references()[q + 1] == name);
        }
        assert(f.references().contains(name));
    } else if exists|j: int|
        0 <= j < st.input_fields.len() && (#[trigger] st.input_fields[j]).ty.name == name {
        let j = choose|j: int|
            0 <= j < st.input_fields.len() && (#[trigger] st.input_fields[j]).ty.name == name;
        lemma_kept_inputs_mention(t.input_fields, removed, name, j);
    } else if st.members.contains(name) {
        lemma_kept_names_mention(t.members, removed, name);
    } else {
        lemma_kept_names_mention(t.implements, removed, name);
    }
}

/// What a schema without a removed type mentions, the schema mentioned
/// before, and it is not the removed name.
pub proof fn lemma_without_type_mentions(s: SchemaView, removed: Seq<char>, name: Seq<char>)
    requires
        s.without_type(removed).mentions(name),
    ensures
        name != removed,
        s.mentions(name),
{
    let after = s.without_type(removed);
    let kept = s.types.filter(type_elsewhere(removed));
    if exists|i: int| 0 <= i < after.types.len() && type_mentions(#[trigger] after.types[i], name) {
        let i = choose|i: int|
            0 <= i < after.types.len() && type_mentions(#[trigger] after.types[i], name);
        lemma_filter_item(s.types, type_elsewhere(removed), i);
        let q = choose|q: int| 0 <= q < s.types.len() && #[trigger] s.types[q] == kept[i];
        assert(after.types[i] == strip_type(removed)(s.types[q]));
        lemma_stripped_type_mentions(s.types[q], removed, name);
    } else if exists|i: int|
        0 <= i < after.directive_definitions.len() && (
        #[trigger] after.directive_definitions[i]).references().contains(name) {
        let i = choose|i: int|
            0 <= i < after.directive_definitions.len() && (
            #[trigger] after.directive_definitions[i]).references().contains(name);
        let d = s.directive_definitions[i];
        let sd = after.directive_definitions[i];
        assert(sd == strip_definition(removed)(d));
        let refs = sd.references();
        let k = choose|k: int| 0 <= k < refs.len() && refs[k] == name;
        assert(refs[k] == sd.arguments[k].ty.name);
        lemma_kept_inputs_mention(d.arguments, removed, name, k);
        let q = choose|q: int| 0 <= q < d.arguments.len() && (#[trigger] d.arguments[q]).ty.name == name;
        assert(d.references()[q] == name);
        assert(d.references().contains(name));
    }
}

/// Removing a type adds no type, and keeps an empty shell of another name as
/// an empty shell.
proof fn lemma_without_type_keeps_shell(s: SchemaView, removed: Seq<char>, name: Seq<char>)
    ensures
        s.without_type(removed).has_type(name) ==> s.has_type(name) && name != removed,
        s.has_empty_shell(name) && name != removed ==> s.without_type(removed).has_empty_shell(name),
{
    let after = s.without_type(removed);
    let kept = s.types.filter(type_elsewhere(removed));
    if after.has_type(name) {
        let k = choose|k: int| 0 <= k < after.types.len() && (#[trigger] after.types[k]).name == name;
        lemma_filter_item(s.types, type_elsewhere(removed), k);
        let q = choose|q: int| 0 <= q < s.types.len() && #[trigger] s.types[q] == kept[k];
        assert(s.types[q].name == name);
    }
    if s.has_empty_shell(name) && name != removed {
        let i = choose|i: int|
            0 <= i < s.types.len() && (#[trigger] s.types[i]).name == name && is_empty_shell(
                s.types[i],
            );
        s.types.lemma_filter_contains(type_elsewhere(removed), i);
        let m = choose|m: int| 0 <= m < kept.len() && kept[m] == s.types[i];
        let t = after.types[m];
        assert(t == strip_type(removed)(kept[m]));
        assert(t.name == name);
        assert(is_empty_shell(t));
    }
}

/// Whether the schema has an empty shell named `name`, or has no type of
/// that name and mentions it nowhere.
pub open spec fn shell_or_gone(s: SchemaView, name: Seq<char>) -> bool {
    s.has_empty_shell(name) || (!s.has_type(name) && !s.mentions(name))
}

/// Rounds of pruning leave an empty shell an empty shell until they remove
/// it, and then bring neither the type nor a mention of it back.
proof fn lemma_prune_rounds_keep_shell(s: SchemaView, rounds: nat, name: Seq<char>)
    requires
        shell_or_gone(s, name),
    ensures
        shell_or_gone(s.prune_rounds(rounds), name),
    decreases rounds,
{
    if rounds > 0 {
        lemma_first_where(s.types, empty_shells());
        match first_where(s.types, empty_shells()) {
            None => {},
            Some(i) => {
                let removed = s.types[i].name;
                let after = s.without_type(removed);
                lemma_without_type_keeps_shell(s, removed, name);
                if after.mentions(name) {
                    lemma_without_type_mentions(s, removed, name);
                }
                lemma_prune_rounds_keep_shell(after, (rounds - 1) as nat, name);
            },
        }
    }
}

/// Pruning removes what was left empty, with every mention of it: the pruned
/// schema has no type under the name of an empty shell, and nothing in it
/// mentions that name.
pub proof fn lemma_prune_removes_empty_shell(s: SchemaView, name: Seq<char>)
    requires
        s.has_empty_shell(name),
    ensures
        !s.prune().has_type(name),
        !s.prune().mentions(name),
{
    let pruned = s.prune();
    lemma_prune_rounds_keep_shell(s, s.types.len(), name);
    lemma_prune_no_empty_shells(s);
    if pruned.has_empty_shell(name) {
        let i = choose|i: int|
            0 <= i < pruned.types.len() && (#[trigger] pruned.types[i]).name == name
                && is_empty_shell(pruned.types[i]);
        assert(!is_empty_shell(pruned.types[i]));
    }
}

/// The preamble defines the types of its own directive arguments.
proof fn lemma_preamble_defines()
    ensures
        preamble().defines("String"@),
        preamble().defines("Boolean"@),
        preamble().defines("link__Import"@),
        preamble().defines("link__Purpose"@),
        preamble().defines("federation__FieldSet"@),
        preamble().defines("federation__Scope"@),
{
    let s = preamble();
    lemma_defines(s, "link__Import"@);
    lemma_defines(s, "link__Purpose"@);
    lemma_defines(s, "federation__FieldSet"@);
    lemma_defines(s, "federation__Scope"@);
    assert(s.types[0].name == "link__Import"@);
    assert(s.types[1].name == "link__Purpose"@);
    assert(s.types[2].name == "federation__FieldSet"@);
    assert(s.types[3].name == "federation__Scope"@);
}

/// The schema with which every service starts is closed.
pub proof fn lemma_preamble_closed()
    ensures
        preamble().closed(),
{
    let s = preamble();
    lemma_preamble_defines();
    assert forall|i: int| 0 <= i < s.types.len() implies s.type_closed(#[trigger] s.types[i]) by {
        assert(s.types[i].fields.len() == 0);
        assert(s.types[i].input_fields.len() == 0);
        assert(s.types[i].members.len() == 0);
        assert(s.types[i].implements.len() == 0);
    }
    assert forall|i: int| 0 <= i < s.directive_definitions.len() implies s.defines_all(
        (#[trigger] s.directive_definitions[i]).references(),
    ) by {
        let d = s.directive_definitions[i];
        let refs = d.references();
        assert forall|k: int| 0 <= k < refs.len() implies s.defines(#[trigger] refs[k]) by {
            assert(refs[k] == d.arguments[k].ty.name);
            if i == 0 {
                assert(d.arguments == link_arguments());
            } else if i == 1 {
                assert(d.arguments == key_arguments());
            }
        }
    }
}

} // verus!
