//! Pruning: a type shell that extraction left without content is removed from
//! a service's schema, with everything that mentions it, and so is every type
//! that this leaves without content in turn.
use crate::closure::{
    lemma_prune_closed, lemma_prune_removes_empty_shell, lemma_without_type_closed,
};
use crate::edits::outcome;
use crate::kinds::{has_type_of, lemma_prune_kinds};
use crate::error::{ErrorView, FederationError, internal};
use crate::schema::{
    DirectiveDefinitionView, Field, FieldView, InputValue, InputValueView, Schema, SchemaView,
    TypeDefinition, TypeDefinitionView, TypeKind,
};
use crate::seqs::{
    first_where, lemma_deep_view_remove, lemma_first_where, lemma_first_where_is,
    lemma_first_where_none, lemma_retaining_done, lemma_retaining_drop, lemma_retaining_keep,
    lemma_retaining_start, retaining,
};
use crate::subgraphs::{FederationSubgraph, SubgraphView};
use crate::text::str_eq;
use vstd::prelude::*;
use vstd::string::*;

verus! {

/// What is said where a type is to be removed that is never left empty.
pub open spec fn msg_not_removable() -> Seq<char> {
    "Encountered type kind that shouldn't have been removed"@
}

/// Whether the type is an object or interface without fields, a union
/// without members, or an input object without fields.
pub open spec fn is_empty_shell(t: TypeDefinitionView) -> bool {
    match t.kind {
        TypeKind::Object | TypeKind::Interface => t.fields.len() == 0,
        TypeKind::Union => t.members.len() == 0,
        TypeKind::InputObject => t.input_fields.len() == 0,
        _ => false,
    }
}

/// The types that are empty shells.
pub open spec fn empty_shells() -> spec_fn(TypeDefinitionView) -> bool {
    |t: TypeDefinitionView| is_empty_shell(t)
}

/// The names other than `name`.
pub open spec fn other_name(name: Seq<char>) -> spec_fn(Seq<char>) -> bool {
    |n: Seq<char>| n != name
}

/// The input values whose type is not `name`.
pub open spec fn input_elsewhere(name: Seq<char>) -> spec_fn(InputValueView) -> bool {
    |a: InputValueView| a.ty.name != name
}

/// The fields whose type is not `name`.
pub open spec fn field_elsewhere(name: Seq<char>) -> spec_fn(FieldView) -> bool {
    |f: FieldView| f.ty.name != name
}

/// The types not named `name`.
pub open spec fn type_elsewhere(name: Seq<char>) -> spec_fn(TypeDefinitionView) -> bool {
    |t: TypeDefinitionView| t.name != name
}

/// The field without its arguments of type `name`.
pub open spec fn strip_field(name: Seq<char>) -> spec_fn(FieldView) -> FieldView {
    |f: FieldView| FieldView { arguments: f.arguments.filter(input_elsewhere(name)), ..f }
}

/// The type without what mentions `name`: the interface `name` among those
/// that it implements, the member `name`, its fields and input fields of type
/// `name`, and the arguments of type `name` of the fields that stay.
pub open spec fn strip_type(name: Seq<char>) -> spec_fn(TypeDefinitionView) -> TypeDefinitionView {
    |t: TypeDefinitionView|
        TypeDefinitionView {
            implements: t.implements.filter(other_name(name)),
            fields: t.fields.filter(field_elsewhere(name)).map_values(strip_field(name)),
            members: t.members.filter(other_name(name)),
            input_fields: t.input_fields.filter(input_elsewhere(name)),
            ..t
        }
}

/// The directive definition without its arguments of type `name`.
pub open spec fn strip_definition(name: Seq<char>) -> spec_fn(
    DirectiveDefinitionView,
) -> DirectiveDefinitionView {
    |d: DirectiveDefinitionView|
        DirectiveDefinitionView { arguments: d.arguments.filter(input_elsewhere(name)), ..d }
}

/// The root operation type, unless it is `name`.
pub open spec fn strip_root(root: Option<Seq<char>>, name: Seq<char>) -> Option<Seq<char>> {
    if root == Some(name) {
        None
    } else {
        root
    }
}

impl SchemaView {
    /// The schema without the type `name` and without anything that mentions
    /// it.
    pub open spec fn without_type(self, name: Seq<char>) -> SchemaView {
        SchemaView {
            directives: self.directives,
            query_type: strip_root(self.query_type, name),
            mutation_type: strip_root(self.mutation_type, name),
            subscription_type: strip_root(self.subscription_type, name),
            types: self.types.filter(type_elsewhere(name)).map_values(strip_type(name)),
            directive_definitions: self.directive_definitions.map_values(strip_definition(name)),
        }
    }

    /// The schema after at most `rounds` removals of a first empty shell.
    pub open spec fn prune_rounds(self, rounds: nat) -> SchemaView
        decreases rounds,
    {
        if rounds == 0 {
            self
        } else {
            match first_where(self.types, empty_shells()) {
                None => self,
                Some(i) => self.without_type(self.types[i].name).prune_rounds((rounds - 1) as nat),
            }
        }
    }

    /// The schema pruned: as long as it holds an empty shell, the first one
    /// is removed with everything that mentions it.
    pub open spec fn prune(self) -> SchemaView {
        self.prune_rounds(self.types.len())
    }

    /// The schema without the type `name`, without anything that mentions it,
    /// and without what this leaves empty in turn; the schema itself where it
    /// has no such type. A scalar or an enum, which no extraction leaves
    /// empty, is refused.
    pub open spec fn remove_recursive(self, name: Seq<char>) -> Result<SchemaView, ErrorView> {
        match self.type_index(name) {
            None => Ok(self),
            Some(i) => match self.types[i].kind {
                TypeKind::Scalar | TypeKind::Enum => Err(internal(msg_not_removable())),
                _ => Ok(self.without_type(name).prune()),
            },
        }
    }

    /// Whether no type of the schema is an empty shell.
    pub open spec fn no_empty_shells(self) -> bool {
        forall|i: int| 0 <= i < self.types.len() ==> !is_empty_shell(#[trigger] self.types[i])
    }
}

/// A filter that rejects an item of a sequence returns a shorter one.
pub proof fn lemma_filter_shorter<T>(s: Seq<T>, p: spec_fn(T) -> bool, i: int)
    requires
        0 <= i < s.len(),
        !p(s[i]),
    ensures
        s.filter(p).len() < s.len(),
    decreases s.len(),
{
    reveal(Seq::filter);
    if i == s.len() - 1 {
        s.drop_last().lemma_filter_len(p);
    } else {
        lemma_filter_shorter(s.drop_last(), p, i);
    }
}

/// Removing a type that the schema holds leaves fewer types.
pub proof fn lemma_without_type_shorter(schema: SchemaView, i: int)
    requires
        0 <= i < schema.types.len(),
    ensures
        schema.without_type(schema.types[i].name).types.len() < schema.types.len(),
{
    lemma_filter_shorter(schema.types, type_elsewhere(schema.types[i].name), i);
}

/// Rounds beyond the number of types change nothing.
pub proof fn lemma_prune_rounds_enough(schema: SchemaView, rounds: nat)
    requires
        rounds >= schema.types.len(),
    ensures
        schema.prune_rounds(rounds) == schema.prune(),
        schema.prune().no_empty_shells(),
    decreases rounds,
{
    lemma_first_where(schema.types, empty_shells());
    match first_where(schema.types, empty_shells()) {
        None => {
            if schema.types.len() == 0 {
                assert(schema.prune() == schema);
            }
            assert(schema.prune_rounds(rounds) == schema);
            assert(schema.prune() == schema);
        },
        Some(i) => {
            let next = schema.without_type(schema.types[i].name);
            lemma_without_type_shorter(schema, i);
            lemma_prune_rounds_enough(next, (rounds - 1) as nat);
            lemma_prune_rounds_enough(next, (schema.types.len() - 1) as nat);
        },
    }
}

/// A pruned schema holds no empty shell.
pub proof fn lemma_prune_no_empty_shells(schema: SchemaView)
    ensures
        schema.prune().no_empty_shells(),
{
    lemma_prune_rounds_enough(schema, schema.types.len());
}

/// A pruned schema is left as it is by pruning.
pub proof fn lemma_prune_idempotent(schema: SchemaView)
    ensures
        schema.prune().prune() == schema.prune(),
{
    let pruned = schema.prune();
    lemma_prune_no_empty_shells(schema);
    lemma_first_where(pruned.types, empty_shells());
    lemma_prune_step(pruned);
}

/// Pruning a schema from which a first empty shell has been removed gives the
/// pruned schema.
pub proof fn lemma_prune_step(schema: SchemaView)
    ensures
        match first_where(schema.types, empty_shells()) {
            None => schema.prune() == schema,
            Some(i) => schema.prune() == schema.without_type(schema.types[i].name).prune(),
        },
{
    lemma_first_where(schema.types, empty_shells());
    match first_where(schema.types, empty_shells()) {
        None => {
            lemma_prune_rounds_enough(schema, schema.types.len());
        },
        Some(i) => {
            let next = schema.without_type(schema.types[i].name);
            lemma_without_type_shorter(schema, i);
            lemma_prune_rounds_enough(next, (schema.types.len() - 1) as nat);
        },
    }
}

/// Removes from `names` those equal to `name`.
fn retain_other_names(names: &mut Vec<String>, name: &str)
    ensures
        final(names).deep_view() == old(names).deep_view().filter(other_name(name@)),
{
    let ghost p = other_name(name@);
    let ghost orig = names.deep_view();
    let ghost mut k: int = 0;
    let mut j: usize = 0;
    proof {
        lemma_retaining_start(orig, p);
    }
    while j < names.len()
        invariant
            p == other_name(name@),
            retaining(names.deep_view(), orig, p, j as int, k),
        decreases names.len() - j,
    {
        if str_eq(names[j].as_str(), name) {
            let ghost before = *names;
            proof {
                lemma_retaining_drop(names.deep_view(), orig, p, j as int, k);
            }
            names.remove(j);
            proof {
                lemma_deep_view_remove(before, *names, j as int);
                k = k + 1;
            }
        } else {
            proof {
                lemma_retaining_keep(names.deep_view(), orig, p, j as int, k);
                k = k + 1;
            }
            j += 1;
        }
    }
    proof {
        lemma_retaining_done(names.deep_view(), orig, p, j as int, k);
    }
}

/// Removes from `inputs` those of type `name`.
fn retain_inputs_elsewhere(inputs: &mut Vec<InputValue>, name: &str)
    ensures
        final(inputs).deep_view() == old(inputs).deep_view().filter(input_elsewhere(name@)),
{
    let ghost p = input_elsewhere(name@);
    let ghost orig = inputs.deep_view();
    let ghost mut k: int = 0;
    let mut j: usize = 0;
    proof {
        lemma_retaining_start(orig, p);
    }
    while j < inputs.len()
        invariant
            p == input_elsewhere(name@),
            retaining(inputs.deep_view(), orig, p, j as int, k),
        decreases inputs.len() - j,
    {
        if str_eq(inputs[j].ty.name.as_str(), name) {
            let ghost before = *inputs;
            proof {
                lemma_retaining_drop(inputs.deep_view(), orig, p, j as int, k);
            }
            inputs.remove(j);
            proof {
                lemma_deep_view_remove(before, *inputs, j as int);
                k = k + 1;
            }
        } else {
            proof {
                lemma_retaining_keep(inputs.deep_view(), orig, p, j as int, k);
                k = k + 1;
            }
            j += 1;
        }
    }
    proof {
        lemma_retaining_done(inputs.deep_view(), orig, p, j as int, k);
    }
}

/// Removes from `fields` those of type `name`.
fn retain_fields_elsewhere(fields: &mut Vec<Field>, name: &str)
    ensures
        final(fields).deep_view() == old(fields).deep_view().filter(field_elsewhere(name@)),
{
    let ghost p = field_elsewhere(name@);
    let ghost orig = fields.deep_view();
    let ghost mut k: int = 0;
    let mut j: usize = 0;
    proof {
        lemma_retaining_start(orig, p);
    }
    while j < fields.len()
        invariant
            p == field_elsewhere(name@),
            retaining(fields.deep_view(), orig, p, j as int, k),
        decreases fields.len() - j,
    {
        if str_eq(fields[j].ty.name.as_str(), name) {
            let ghost before = *fields;
            proof {
                lemma_retaining_drop(fields.deep_view(), orig, p, j as int, k);
            }
            fields.remove(j);
            proof {
                lemma_deep_view_remove(before, *fields, j as int);
                k = k + 1;
            }
        } else {
            proof {
                lemma_retaining_keep(fields.deep_view(), orig, p, j as int, k);
                k = k + 1;
            }
            j += 1;
        }
    }
    proof {
        lemma_retaining_done(fields.deep_view(), orig, p, j as int, k);
    }
}

/// Removes from `types` those named `name`.
fn retain_types_elsewhere(types: &mut Vec<TypeDefinition>, name: &str)
    ensures
        final(types).deep_view() == old(types).deep_view().filter(type_elsewhere(name@)),
{
    let ghost p = type_elsewhere(name@);
    let ghost orig = types.deep_view();
    let ghost mut k: int = 0;
    let mut j: usize = 0;
    proof {
        lemma_retaining_start(orig, p);
    }
    while j < types.len()
        invariant
            p == type_elsewhere(name@),
            retaining(types.deep_view(), orig, p, j as int, k),
        decreases types.len() - j,
    {
        if str_eq(types[j].name.as_str(), name) {
            let ghost before = *types;
            proof {
                lemma_retaining_drop(types.deep_view(), orig, p, j as int, k);
            }
            types.remove(j);
            proof {
                lemma_deep_view_remove(before, *types, j as int);
                k = k + 1;
            }
        } else {
            proof {
                lemma_retaining_keep(types.deep_view(), orig, p, j as int, k);
                k = k + 1;
            }
            j += 1;
        }
    }
    proof {
        lemma_retaining_done(types.deep_view(), orig, p, j as int, k);
    }
}

/// Removes the fields of type `name`, and from each field that stays its
/// arguments of type `name`.
fn strip_fields(fields: &mut Vec<Field>, name: &str)
    ensures
        final(fields).deep_view() == old(fields).deep_view().filter(
            field_elsewhere(name@),
        ).map_values(strip_field(name@)),
{
    retain_fields_elsewhere(fields, name);
    let ghost kept = fields.deep_view();
    let mut j: usize = 0;
    while j < fields.len()
        invariant
            j <= fields.len(),
            fields.len() == kept.len(),
            forall|i: int| 0 <= i < j ==> (#[trigger] fields.deep_view()[i]) == strip_field(name@)(kept[i]),
            forall|i: int| j <= i < kept.len() ==> (#[trigger] fields.deep_view()[i]) == kept[i],
        decreases fields.len() - j,
    {
        let ghost before = *fields;
        retain_inputs_elsewhere(&mut fields[j].arguments, name);
        proof {
            assert forall|i: int| 0 <= i < kept.len() && i != j implies (
            #[trigger] fields.deep_view()[i]) == before.deep_view()[i] by {}
            assert(fields.deep_view()[j as int] == strip_field(name@)(before.deep_view()[j as int]));
        }
        j += 1;
    }
    assert(fields.deep_view() =~= kept.map_values(strip_field(name@)));
}

impl TypeDefinition {
    /// Removes from the type what mentions `name`.
    fn strip(&mut self, name: &str)
        ensures
            final(self)@ == strip_type(name@)(old(self)@),
    {
        retain_other_names(&mut self.implements, name);
        strip_fields(&mut self.fields, name);
        retain_other_names(&mut self.members, name);
        retain_inputs_elsewhere(&mut self.input_fields, name);
    }
}

/// The root operation type, unless it is `name`.
fn strip_root_type(root: &mut Option<String>, name: &str)
    ensures
        final(root).deep_view() == strip_root(old(root).deep_view(), name@),
{
    let same = match root {
        Some(r) => str_eq(r.as_str(), name),
        None => false,
    };
    if same {
        *root = None;
    }
}

impl Schema {
    /// Removes the type `name` and everything that mentions it.
    pub fn remove_type(&mut self, name: &str)
        ensures
            final(self)@ == old(self)@.without_type(name@),
            old(self)@.closed() ==> final(self)@.closed(),
    {
        proof {
            if self@.closed() {
                lemma_without_type_closed(self@, name@);
            }
        }
        retain_types_elsewhere(&mut self.types, name);
        let ghost kept = self.types.deep_view();
        let mut j: usize = 0;
        while j < self.types.len()
            invariant
                j <= self.types.len(),
                self.types.len() == kept.len(),
                self.directives == old(self).directives,
                self.query_type == old(self).query_type,
                self.mutation_type == old(self).mutation_type,
                self.subscription_type == old(self).subscription_type,
                self.directive_definitions == old(self).directive_definitions,
                kept == old(self)@.types.filter(type_elsewhere(name@)),
                forall|i: int|
                    0 <= i < j ==> (#[trigger] self.types.deep_view()[i]) == strip_type(name@)(
                        kept[i],
                    ),
                forall|i: int| j <= i < kept.len() ==> (#[trigger] self.types.deep_view()[i]) == kept[i],
            decreases self.types.len() - j,
        {
            let ghost before = self.types;
            self.types[j].strip(name);
            proof {
                assert forall|i: int| 0 <= i < kept.len() && i != j implies (
                #[trigger] self.types.deep_view()[i]) == before.deep_view()[i] by {}
                assert(self.types.deep_view()[j as int] == strip_type(name@)(
                    before.deep_view()[j as int],
                ));
            }
            j += 1;
        }
        assert(self.types.deep_view() =~= kept.map_values(strip_type(name@)));
        let ghost definitions = self.directive_definitions.deep_view();
        let mut d: usize = 0;
        while d < self.directive_definitions.len()
            invariant
                d <= self.directive_definitions.len(),
                self.directive_definitions.len() == definitions.len(),
                self.directives == old(self).directives,
                self.query_type == old(self).query_type,
                self.mutation_type == old(self).mutation_type,
                self.subscription_type == old(self).subscription_type,
                definitions == old(self)@.directive_definitions,
                self.types.deep_view() == old(self)@.types.filter(
                    type_elsewhere(name@),
                ).map_values(strip_type(name@)),
                forall|i: int|
                    0 <= i < d ==> (#[trigger] self.directive_definitions.deep_view()[i])
                        == strip_definition(name@)(definitions[i]),
                forall|i: int|
                    d <= i < definitions.len() ==> (
                    #[trigger] self.directive_definitions.deep_view()[i]) == definitions[i],
            decreases self.directive_definitions.len() - d,
        {
            let ghost before = self.directive_definitions;
            retain_inputs_elsewhere(&mut self.directive_definitions[d].arguments, name);
            proof {
                assert forall|i: int| 0 <= i < definitions.len() && i != d implies (
                #[trigger] self.directive_definitions.deep_view()[i]) == before.deep_view()[i] by {}
                assert(self.directive_definitions.deep_view()[d as int] == strip_definition(name@)(
                    before.deep_view()[d as int],
                ));
            }
            d += 1;
        }
        assert(self.directive_definitions.deep_view() =~= definitions.map_values(
            strip_definition(name@),
        ));
        strip_root_type(&mut self.query_type, name);
        strip_root_type(&mut self.mutation_type, name);
        strip_root_type(&mut self.subscription_type, name);
    }

    /// Removes the type `name` with everything that mentions it, and then what
    /// this leaves empty. A scalar or an enum is refused.
    pub fn remove_recursive(&mut self, name: &str) -> (r: Result<(), FederationError>)
        ensures
            outcome(r, final(self)@, old(self)@.remove_recursive(name@)),
            old(self)@.closed() && r is Ok ==> final(self)@.closed(),
    {
        match self.find_type(name) {
            None => Ok(()),
            Some(i) => match self.types[i].kind {
                TypeKind::Scalar | TypeKind::Enum => Err(
                    FederationError::internal(
                        String::from_str("Encountered type kind that shouldn't have been removed"),
                    ),
                ),
                _ => {
                    self.remove_type(name);
                    self.prune();
                    Ok(())
                },
            },
        }
    }

    /// The position of the first empty shell.
    pub fn find_empty_shell(&self) -> (r: Option<usize>)
        ensures
            match r {
                Some(i) => first_where(self@.types, empty_shells()) == Some(i as int) && i
                    < self.types.len(),
                None => first_where(self@.types, empty_shells()).is_none(),
            },
    {
        let mut i: usize = 0;
        while i < self.types.len()
            invariant
                i <= self.types.len(),
                forall|j: int| 0 <= j < i ==> !empty_shells()(#[trigger] self@.types[j]),
            decreases self.types.len() - i,
        {
            let t = &self.types[i];
            let empty = match t.kind {
                TypeKind::Object | TypeKind::Interface => t.fields.len() == 0,
                TypeKind::Union => t.members.len() == 0,
                TypeKind::InputObject => t.input_fields.len() == 0,
                _ => false,
            };
            if empty {
                proof {
                    lemma_first_where_is(self@.types, empty_shells(), i as int);
                }
                return Some(i);
            }
            i += 1;
        }
        proof {
            lemma_first_where_none(self@.types, empty_shells());
        }
        None
    }

    /// Prunes the schema: as long as it holds an empty shell, removes the
    /// first one with everything that mentions it.
    pub fn prune(&mut self)
        ensures
            final(self)@ == old(self)@.prune(),
            final(self)@.no_empty_shells(),
            forall|name: Seq<char>| #[trigger]
                old(self)@.has_empty_shell(name) ==> !final(self)@.has_type(name)
                    && !final(self)@.mentions(name),
            forall|name: Seq<char>, kind: TypeKind| #[trigger]
                has_type_of(final(self)@, name, kind) ==> has_type_of(old(self)@, name, kind),
            old(self)@.closed() ==> final(self)@.closed(),
    {
        proof {
            lemma_prune_no_empty_shells(self@);
            assert forall|name: Seq<char>, kind: TypeKind| #[trigger]
                has_type_of(self@.prune(), name, kind) implies has_type_of(self@, name, kind) by {
                lemma_prune_kinds(self@, name, kind);
            }
            assert forall|name: Seq<char>| #[trigger]
                self@.has_empty_shell(name) implies !self@.prune().has_type(name)
                && !self@.prune().mentions(name) by {
                lemma_prune_removes_empty_shell(self@, name);
            }
            if self@.closed() {
                lemma_prune_closed(self@);
            }
        }
        loop
            invariant
                self@.prune() == old(self)@.prune(),
            ensures
                self@ == old(self)@.prune(),
            decreases self.types.len(),
        {
            proof {
                lemma_prune_step(self@);
            }
            match self.find_empty_shell() {
                None => {
                    break ;
                },
                Some(i) => {
                    proof {
                        lemma_without_type_shorter(self@, i as int);
                    }
                    let name = self.types[i].name.clone();
                    self.remove_type(name.as_str());
                },
            }
        }
    }
}

/// Removes from a service's schema the types that extraction scaffolded and
/// left without content, each with everything that mentions it.
pub fn remove_unused_types_from_subgraph(subgraph: &mut FederationSubgraph)
    ensures
        final(subgraph)@ == (SubgraphView { schema: old(subgraph)@.schema.prune(), ..old(subgraph)@ }),
        final(subgraph)@.schema.no_empty_shells(),
        forall|name: Seq<char>| #[trigger]
            old(subgraph)@.schema.has_empty_shell(name) ==> !final(subgraph)@.schema.has_type(name)
                && !final(subgraph)@.schema.mentions(name),
        forall|name: Seq<char>, kind: TypeKind| #[trigger]
            has_type_of(final(subgraph)@.schema, name, kind) ==> has_type_of(
                old(subgraph)@.schema,
                name,
                kind,
            ),
        old(subgraph)@.schema.closed() ==> final(subgraph)@.schema.closed(),
{
    subgraph.schema.prune();
}

} // verus!
