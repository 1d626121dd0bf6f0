//! Guarded edits of a schema. Every edit first checks that it leaves the
//! schema consistent: a type or a member is inserted once, under a type of the
//! expected kind, and only with references to types that the schema defines.
//! An edit that would not is refused with an internal error and changes
//! nothing.
use crate::closure::{
    lemma_insert_directive_definition_closed, lemma_insert_enum_value_closed,
    lemma_insert_field_closed, lemma_insert_implements_closed, lemma_insert_input_field_closed,
    lemma_insert_member_closed, lemma_insert_root_closed, lemma_insert_shell_closed,
    lemma_insert_type_directive_closed, lemma_remove_field_closed,
};
use crate::error::{ErrorView, FederationError, internal};
use crate::schema::{
    Directive, DirectiveDefinition, DirectiveDefinitionView, DirectiveView, EnumValue,
    EnumValueView, Field, FieldView, InputValue, InputValueView, Schema, SchemaView, TypeDefinition,
    TypeDefinitionView, TypeKind,
};
use crate::kinds::{
    lemma_insert_enum_value_kinds, lemma_insert_field_kinds, lemma_insert_implements_kinds,
    lemma_insert_input_field_kinds, lemma_insert_member_kinds, lemma_insert_shell_shelled,
    lemma_insert_type_directive_kinds, lemma_remove_field_kinds, same_kinds, shelled,
};
use crate::members::{
    lemma_insert_enum_value_members, lemma_insert_enum_value_places, lemma_insert_field_members,
    lemma_insert_field_places, lemma_insert_implements_keeps, lemma_insert_implements_members,
    lemma_insert_input_field_members, lemma_insert_input_field_places, lemma_insert_member_defined,
    lemma_insert_member_members, lemma_insert_member_places, new_members_of, no_new_member, placed,
    same_defined,
};
use crate::seqs::{
    first_where, lemma_deep_view_empty, lemma_deep_view_push, lemma_deep_view_remove,
    lemma_first_where_is, lemma_first_where_none, lemma_retaining_done, lemma_retaining_drop,
    lemma_retaining_keep, lemma_retaining_start, retaining,
};
use crate::text::{concat3, concat5, str_eq};
use vstd::prelude::*;

verus! {

/// The outcome of an operation that edits a value in place: on success the
/// value is the expected one, on failure the error is.
pub open spec fn outcome<S>(
    r: Result<(), FederationError>,
    after: S,
    expected: Result<S, ErrorView>,
) -> bool {
    match expected {
        Ok(s) => r is Ok && after == s,
        Err(e) => r is Err && r->Err_0@ == e,
    }
}

/// The names of the scalars that every schema defines.
pub open spec fn is_builtin_scalar(name: Seq<char>) -> bool {
    name == "Int"@ || name == "Float"@ || name == "String"@ || name == "Boolean"@ || name == "ID"@
}

/// Whether `name` is one of the scalars that every schema defines.
pub fn is_builtin_scalar_name(name: &str) -> (r: bool)
    ensures
        r == is_builtin_scalar(name@),
{
    str_eq(name, "Int") || str_eq(name, "Float") || str_eq(name, "String") || str_eq(
        name,
        "Boolean",
    ) || str_eq(name, "ID")
}

/// The three root operations of a schema.
#[derive(Debug, Clone, Copy, PartialEq, Eq, Structural)]
pub enum RootKind {
    Query,
    Mutation,
    Subscription,
}

/// What is said of a type that the schema defines already.
pub open spec fn msg_type_exists(name: Seq<char>) -> Seq<char> {
    "Type \""@ + name + "\" already exists in schema"@
}

/// What is said of a type that the schema lacks.
pub open spec fn msg_no_type(name: Seq<char>) -> Seq<char> {
    "Schema has no type \""@ + name + "\""@
}

/// What is said of a type that is of another kind than expected.
pub open spec fn msg_wrong_kind(name: Seq<char>) -> Seq<char> {
    "Schema type \""@ + name + "\" is not of the expected kind"@
}

/// What is said of a member that its type has already.
pub open spec fn msg_member_exists(owner: Seq<char>, member: Seq<char>) -> Seq<char> {
    "\""@ + owner + "."@ + member + "\" already exists in schema"@
}

/// What is said of a member that mentions a type which the schema lacks.
pub open spec fn msg_dangling(owner: Seq<char>, member: Seq<char>) -> Seq<char> {
    "\""@ + owner + "."@ + member + "\" refers to a type that does not exist in schema"@
}

/// What is said of a union member that is no object type of the schema.
pub open spec fn msg_not_object(owner: Seq<char>, member: Seq<char>) -> Seq<char> {
    "Union type \""@ + owner + "\"'s member type \""@ + member + "\" is not an object type"@
}

/// What is said of an implemented type that is no interface of the schema.
pub open spec fn msg_not_interface(owner: Seq<char>, interface: Seq<char>) -> Seq<char> {
    "Type \""@ + owner + "\" implements \""@ + interface + "\", which is not an interface type"@
}

/// What is said of a root operation that is served already.
pub open spec fn msg_root_exists(name: Seq<char>) -> Seq<char> {
    "Root operation for \""@ + name + "\" already exists in schema"@
}

/// What is said of a root operation type that is no object type of the
/// schema.
pub open spec fn msg_root_not_object(name: Seq<char>) -> Seq<char> {
    "Root operation type \""@ + name + "\" is not an object type"@
}

/// What is said of a directive that the schema defines already.
pub open spec fn msg_directive_exists(name: Seq<char>) -> Seq<char> {
    "Directive \"@"@ + name + "\" already exists in schema"@
}

/// What is said of a directive definition with an argument of a type which
/// the schema lacks.
pub open spec fn msg_directive_dangling(name: Seq<char>) -> Seq<char> {
    "Directive \"@"@ + name + "\" has an argument of a type that does not exist in schema"@
}

/// A type definition of the given kind with no content.
pub open spec fn shell(
    name: Seq<char>,
    kind: TypeKind,
    directives: Seq<DirectiveView>,
) -> TypeDefinitionView {
    TypeDefinitionView {
        name,
        kind,
        directives,
        implements: Seq::empty(),
        fields: Seq::empty(),
        members: Seq::empty(),
        values: Seq::empty(),
        input_fields: Seq::empty(),
    }
}

impl FieldView {
    /// The names of the types that the field mentions: its own type, then
    /// that of each argument.
    pub open spec fn references(self) -> Seq<Seq<char>> {
        seq![self.ty.name] + self.arguments.map_values(|a: InputValueView| a.ty.name)
    }
}

impl DirectiveDefinitionView {
    /// The names of the types of the directive's arguments.
    pub open spec fn references(self) -> Seq<Seq<char>> {
        self.arguments.map_values(|a: InputValueView| a.ty.name)
    }
}

impl SchemaView {
    /// The position of the first type definition named `name`.
    pub open spec fn type_index(self, name: Seq<char>) -> Option<int> {
        first_where(self.types, |t: TypeDefinitionView| t.name == name)
    }

    /// Whether the schema defines a type named `name`, built-in scalars
    /// included.
    pub open spec fn defines(self, name: Seq<char>) -> bool {
        is_builtin_scalar(name) || self.type_index(name).is_some()
    }

    /// Whether the schema holds a definition of the given kind under `name`.
    pub open spec fn has_kind(self, name: Seq<char>, kind: TypeKind) -> bool {
        match self.type_index(name) {
            Some(i) => self.types[i].kind == kind,
            None => false,
        }
    }

    /// Whether the schema defines each of `names`.
    pub open spec fn defines_all(self, names: Seq<Seq<char>>) -> bool {
        forall|i: int| 0 <= i < names.len() ==> self.defines(#[trigger] names[i])
    }

    /// The position of the first directive definition named `name`.
    pub open spec fn directive_index(self, name: Seq<char>) -> Option<int> {
        first_where(self.directive_definitions, |d: DirectiveDefinitionView| d.name == name)
    }

    /// The name of the type that serves the given root operation.
    pub open spec fn root(self, kind: RootKind) -> Option<Seq<char>> {
        match kind {
            RootKind::Query => self.query_type,
            RootKind::Mutation => self.mutation_type,
            RootKind::Subscription => self.subscription_type,
        }
    }

    /// The schema with the definition at position `i` replaced by `t`.
    pub open spec fn with_type(self, i: int, t: TypeDefinitionView) -> SchemaView {
        SchemaView { types: self.types.update(i, t), ..self }
    }

    /// The position of `owner` where it is defined with kind `kind`, and
    /// the error that says why not otherwise.
    pub open spec fn locate(self, owner: Seq<char>, kind: TypeKind) -> Result<int, ErrorView> {
        match self.type_index(owner) {
            None => Err(internal(msg_no_type(owner))),
            Some(i) => if self.types[i].kind != kind {
                Err(internal(msg_wrong_kind(owner)))
            } else {
                Ok(i)
            },
        }
    }

    /// Adds an empty definition of `kind` under `name`, with the given
    /// directives. Refused where the schema defines `name` already.
    pub open spec fn insert_shell(
        self,
        name: Seq<char>,
        kind: TypeKind,
        directives: Seq<DirectiveView>,
    ) -> Result<SchemaView, ErrorView> {
        if self.defines(name) {
            Err(internal(msg_type_exists(name)))
        } else {
            Ok(SchemaView { types: self.types.push(shell(name, kind, directives)), ..self })
        }
    }

    /// Adds `field` to the object or interface `owner`, which must be of
    /// kind `kind`. Refused where the type has a field of that name already or
    /// the field mentions a type that the schema does not define.
    pub open spec fn insert_field(
        self,
        owner: Seq<char>,
        kind: TypeKind,
        field: FieldView,
    ) -> Result<SchemaView, ErrorView> {
        match self.locate(owner, kind) {
            Err(e) => Err(e),
            Ok(i) => {
                let t = self.types[i];
                if first_where(t.fields, |f: FieldView| f.name == field.name).is_some() {
                    Err(internal(msg_member_exists(owner, field.name)))
                } else if !self.defines_all(field.references()) {
                    Err(internal(msg_dangling(owner, field.name)))
                } else {
                    Ok(self.with_type(i, TypeDefinitionView { fields: t.fields.push(field), ..t }))
                }
            },
        }
    }

    /// Adds `field` to the input object `owner`, under the same checks as
    /// `insert_field`.
    pub open spec fn insert_input_field(
        self,
        owner: Seq<char>,
        field: InputValueView,
    ) -> Result<SchemaView, ErrorView> {
        match self.locate(owner, TypeKind::InputObject) {
            Err(e) => Err(e),
            Ok(i) => {
                let t = self.types[i];
                if first_where(t.input_fields, |f: InputValueView| f.name == field.name).is_some() {
                    Err(internal(msg_member_exists(owner, field.name)))
                } else if !self.defines(field.ty.name) {
                    Err(internal(msg_dangling(owner, field.name)))
                } else {
                    Ok(
                        self.with_type(
                            i,
                            TypeDefinitionView { input_fields: t.input_fields.push(field), ..t },
                        ),
                    )
                }
            },
        }
    }

    /// Adds a value without directives to the enum `owner`. Refused where
    /// the enum has the value already.
    pub open spec fn insert_enum_value(self, owner: Seq<char>, value: Seq<char>) -> Result<
        SchemaView,
        ErrorView,
    > {
        match self.locate(owner, TypeKind::Enum) {
            Err(e) => Err(e),
            Ok(i) => {
                let t = self.types[i];
                if first_where(t.values, |v: EnumValueView| v.name == value).is_some() {
                    Err(internal(msg_member_exists(owner, value)))
                } else {
                    Ok(
                        self.with_type(
                            i,
                            TypeDefinitionView {
                                values: t.values.push(
                                    EnumValueView { name: value, directives: Seq::empty() },
                                ),
                                ..t
                            },
                        ),
                    )
                }
            },
        }
    }

    /// Adds `member` to the union `owner`, once. Refused where `member` is
    /// not an object type of the schema.
    pub open spec fn insert_member(self, owner: Seq<char>, member: Seq<char>) -> Result<
        SchemaView,
        ErrorView,
    > {
        match self.locate(owner, TypeKind::Union) {
            Err(e) => Err(e),
            Ok(i) => {
                let t = self.types[i];
                if !self.has_kind(member, TypeKind::Object) {
                    Err(internal(msg_not_object(owner, member)))
                } else if t.members.contains(member) {
                    Ok(self)
                } else {
                    Ok(self.with_type(i, TypeDefinitionView { members: t.members.push(member), ..t }))
                }
            },
        }
    }

    /// Records, once, that `owner`, of kind `kind`, implements
    /// `interface`. Refused where `interface` is not an interface type of the
    /// schema.
    pub open spec fn insert_implements(
        self,
        owner: Seq<char>,
        kind: TypeKind,
        interface: Seq<char>,
    ) -> Result<SchemaView, ErrorView> {
        match self.locate(owner, kind) {
            Err(e) => Err(e),
            Ok(i) => {
                let t = self.types[i];
                if !self.has_kind(interface, TypeKind::Interface) {
                    Err(internal(msg_not_interface(owner, interface)))
                } else if t.implements.contains(interface) {
                    Ok(self)
                } else {
                    Ok(
                        self.with_type(
                            i,
                            TypeDefinitionView { implements: t.implements.push(interface), ..t },
                        ),
                    )
                }
            },
        }
    }

    /// Applies `directive` to the type `owner`, after those already
    /// there.
    pub open spec fn insert_type_directive(
        self,
        owner: Seq<char>,
        directive: DirectiveView,
    ) -> Result<SchemaView, ErrorView> {
        match self.type_index(owner) {
            None => Err(internal(msg_no_type(owner))),
            Some(i) => {
                let t = self.types[i];
                Ok(
                    self.with_type(
                        i,
                        TypeDefinitionView { directives: t.directives.push(directive), ..t },
                    ),
                )
            },
        }
    }

    /// Makes the object type `name` serve the root operation `kind`. Refused
    /// where that operation is served already or `name` is not an object type
    /// of the schema.
    pub open spec fn insert_root(self, kind: RootKind, name: Seq<char>) -> Result<
        SchemaView,
        ErrorView,
    > {
        if self.root(kind).is_some() {
            Err(internal(msg_root_exists(name)))
        } else if !self.has_kind(name, TypeKind::Object) {
            Err(internal(msg_root_not_object(name)))
        } else {
            Ok(
                match kind {
                    RootKind::Query => SchemaView { query_type: Some(name), ..self },
                    RootKind::Mutation => SchemaView { mutation_type: Some(name), ..self },
                    RootKind::Subscription => SchemaView { subscription_type: Some(name), ..self },
                },
            )
        }
    }

    /// Adds a directive definition. Refused where a directive of that name is
    /// defined already or an argument is of a type that the schema does not
    /// define.
    pub open spec fn insert_directive_definition(self, d: DirectiveDefinitionView) -> Result<
        SchemaView,
        ErrorView,
    > {
        if self.directive_index(d.name).is_some() {
            Err(internal(msg_directive_exists(d.name)))
        } else if !self.defines_all(d.references()) {
            Err(internal(msg_directive_dangling(d.name)))
        } else {
            Ok(SchemaView { directive_definitions: self.directive_definitions.push(d), ..self })
        }
    }

    /// The schema without the fields named `field` of the object type
    /// `owner`; the schema itself where there is no such type.
    pub open spec fn remove_field(self, owner: Seq<char>, field: Seq<char>) -> SchemaView {
        match self.locate(owner, TypeKind::Object) {
            Err(_) => self,
            Ok(i) => {
                let t = self.types[i];
                self.with_type(
                    i,
                    TypeDefinitionView {
                        fields: t.fields.filter(|f: FieldView| f.name != field),
                        ..t
                    },
                )
            },
        }
    }
}


/// The position of the first of `names` that equals `name`.
pub fn find_name(names: &Vec<String>, name: &str) -> (r: Option<usize>)
    ensures
        r.is_some() == names.deep_view().contains(name@),
        r matches Some(i) ==> i < names.len() && names.deep_view()[i as int] == name@,
{
    let mut i: usize = 0;
    while i < names.len()
        invariant
            i <= names.len(),
            forall|j: int| 0 <= j < i ==> names.deep_view()[j] != name@,
        decreases names.len() - i,
    {
        if str_eq(names[i].as_str(), name) {
            assert(names.deep_view()[i as int] == name@);
            return Some(i);
        }
        i += 1;
    }
    None
}

impl TypeDefinition {
    /// Whether the definition has a field named `name`.
    pub fn has_field(&self, name: &str) -> (r: bool)
        ensures
            r == first_where(self@.fields, |f: FieldView| f.name == name@).is_some(),
    {
        let ghost p = |f: FieldView| f.name == name@;
        let mut j: usize = 0;
        while j < self.fields.len()
            invariant
                j <= self.fields.len(),
                p == (|f: FieldView| f.name == name@),
                forall|k: int| 0 <= k < j ==> !p(#[trigger] self@.fields[k]),
            decreases self.fields.len() - j,
        {
            if str_eq(self.fields[j].name.as_str(), name) {
                proof {
                    lemma_first_where_is(self@.fields, p, j as int);
                }
                return true;
            }
            j += 1;
        }
        proof {
            lemma_first_where_none(self@.fields, p);
        }
        false
    }

    /// Whether the definition has an input field named `name`.
    pub fn has_input_field(&self, name: &str) -> (r: bool)
        ensures
            r == first_where(self@.input_fields, |f: InputValueView| f.name == name@).is_some(),
    {
        let ghost p = |f: InputValueView| f.name == name@;
        let mut j: usize = 0;
        while j < self.input_fields.len()
            invariant
                j <= self.input_fields.len(),
                p == (|f: InputValueView| f.name == name@),
                forall|k: int| 0 <= k < j ==> !p(#[trigger] self@.input_fields[k]),
            decreases self.input_fields.len() - j,
        {
            if str_eq(self.input_fields[j].name.as_str(), name) {
                proof {
                    lemma_first_where_is(self@.input_fields, p, j as int);
                }
                return true;
            }
            j += 1;
        }
        proof {
            lemma_first_where_none(self@.input_fields, p);
        }
        false
    }

    /// Whether the definition has an enum value named `name`.
    pub fn has_value(&self, name: &str) -> (r: bool)
        ensures
            r == first_where(self@.values, |v: EnumValueView| v.name == name@).is_some(),
    {
        let ghost p = |v: EnumValueView| v.name == name@;
        let mut j: usize = 0;
        while j < self.values.len()
            invariant
                j <= self.values.len(),
                p == (|v: EnumValueView| v.name == name@),
                forall|k: int| 0 <= k < j ==> !p(#[trigger] self@.values[k]),
            decreases self.values.len() - j,
        {
            if str_eq(self.values[j].name.as_str(), name) {
                proof {
                    lemma_first_where_is(self@.values, p, j as int);
                }
                return true;
            }
            j += 1;
        }
        proof {
            lemma_first_where_none(self@.values, p);
        }
        false
    }
}

/// Removes from `fields` those named `name`.
pub fn remove_fields_named(fields: &mut Vec<Field>, name: &str)
    ensures
        final(fields).deep_view() == old(fields).deep_view().filter(
            |f: FieldView| f.name != name@,
        ),
{
    let ghost p = |f: FieldView| f.name != name@;
    let ghost orig = fields.deep_view();
    let ghost mut k: int = 0;
    let mut j: usize = 0;
    proof {
        lemma_retaining_start(orig, p);
    }
    while j < fields.len()
        invariant
            p == (|f: FieldView| f.name != name@),
            retaining(fields.deep_view(), orig, p, j as int, k),
        decreases fields.len() - j,
    {
        if str_eq(fields[j].name.as_str(), name) {
            let ghost before = *fields;
            proof {
                lemma_retaining_drop(fields.deep_view(), orig, p, j as int, k);
            }
            fields.remove(j);
            proof {
                lemma_deep_view_remove(before, *fields, j as int);
                k = k + 1;
            }
        } else {
            proof {
                lemma_retaining_keep(fields.deep_view(), orig, p, j as int, k);
                k = k + 1;
            }
            j += 1;
        }
    }
    proof {
        lemma_retaining_done(fields.deep_view(), orig, p, j as int, k);
    }
}

impl Schema {
    /// The position of the first type definition named `name`.
    pub fn find_type(&self, name: &str) -> (r: Option<usize>)
        ensures
            match r {
                Some(i) => self@.type_index(name@) == Some(i as int) && i < self.types.len(),
                None => self@.type_index(name@).is_none(),
            },
    {
        let ghost p = |t: TypeDefinitionView| t.name == name@;
        let mut i: usize = 0;
        while i < self.types.len()
            invariant
                i <= self.types.len(),
                p == (|t: TypeDefinitionView| t.name == name@),
                forall|j: int| 0 <= j < i ==> !p(#[trigger] self@.types[j]),
            decreases self.types.len() - i,
        {
            if str_eq(self.types[i].name.as_str(), name) {
                proof {
                    lemma_first_where_is(self@.types, p, i as int);
                }
                return Some(i);
            }
            i += 1;
        }
        proof {
            lemma_first_where_none(self@.types, p);
        }
        None
    }

    /// Whether the schema defines a type named `name`, built-in scalars
    /// included.
    pub fn defines(&self, name: &str) -> (r: bool)
        ensures
            r == self@.defines(name@),
    {
        is_builtin_scalar_name(name) || self.find_type(name).is_some()
    }

    /// Whether the schema holds a definition of the given kind under `name`.
    pub fn has_kind(&self, name: &str, kind: TypeKind) -> (r: bool)
        ensures
            r == self@.has_kind(name@, kind),
    {
        match self.find_type(name) {
            Some(i) => self.types[i].kind == kind,
            None => false,
        }
    }

    /// The position of `owner` where it is defined with kind `kind`, and the
    /// error that says why not otherwise.
    pub fn locate(&self, owner: &str, kind: TypeKind) -> (r: Result<usize, FederationError>)
        ensures
            match self@.locate(owner@, kind) {
                Ok(i) => r is Ok && r->Ok_0 as int == i && r->Ok_0 < self.types.len(),
                Err(e) => r is Err && r->Err_0@ == e,
            },
    {
        match self.find_type(owner) {
            None => Err(
                FederationError::internal(concat3("Schema has no type \"", owner, "\"")),
            ),
            Some(i) => if self.types[i].kind != kind {
                Err(
                    FederationError::internal(
                        concat3("Schema type \"", owner, "\" is not of the expected kind"),
                    ),
                )
            } else {
                Ok(i)
            },
        }
    }

    /// Whether the schema defines the type of the field and of each of its
    /// arguments.
    fn defines_references(&self, field: &Field) -> (r: bool)
        ensures
            r == self@.defines_all(field@.references()),
    {
        if !self.defines(field.ty.name.as_str()) {
            assert(field@.references()[0] == field@.ty.name);
            return false;
        }
        let mut i: usize = 0;
        while i < field.arguments.len()
            invariant
                i <= field.arguments.len(),
                self@.defines(field@.ty.name),
                forall|j: int| 0 <= j < i ==> self@.defines(field@.arguments[j].ty.name),
            decreases field.arguments.len() - i,
        {
            if !self.defines(field.arguments[i].ty.name.as_str()) {
                assert(field@.references()[i + 1] == field@.arguments[i as int].ty.name);
                return false;
            }
            i += 1;
        }
        assert forall|k: int| 0 <= k < field@.references().len() implies self@.defines(
            #[trigger] field@.references()[k],
        ) by {
            if k > 0 {
                assert(field@.references()[k] == field@.arguments[k - 1].ty.name);
            }
        }
        true
    }

    /// Adds an empty definition of `kind` under `name`, with the given
    /// directives. Refused where the schema defines `name` already.
    pub fn insert_shell(&mut self, name: &str, kind: TypeKind, directives: Vec<Directive>) -> (r:
        Result<(), FederationError>)
        ensures
            outcome(r, final(self)@, old(self)@.insert_shell(name@, kind, directives.deep_view())),
            r is Err ==> final(self)@ == old(self)@,
            shelled(old(self)@, final(self)@, name@, kind),
            old(self)@.closed() && r is Ok ==> final(self)@.closed(),
    {
        proof {
            lemma_insert_shell_shelled(self@, name@, kind, directives.deep_view());
            if self@.closed() {
                lemma_insert_shell_closed(self@, name@, kind, directives.deep_view());
            }
        }
        if self.defines(name) {
            return Err(
                FederationError::internal(
                    concat3("Type \"", name, "\" already exists in schema"),
                ),
            );
        }
        let t = TypeDefinition {
            name: String::from_str(name),
            kind,
            directives,
            implements: Vec::new(),
            fields: Vec::new(),
            members: Vec::new(),
            values: Vec::new(),
            input_fields: Vec::new(),
        };
        proof {
            lemma_deep_view_empty(t.implements);
            lemma_deep_view_empty(t.fields);
            lemma_deep_view_empty(t.members);
            lemma_deep_view_empty(t.values);
            lemma_deep_view_empty(t.input_fields);
        }
        let ghost before = self.types;
        self.types.push(t);
        proof {
            lemma_deep_view_push(before, self.types, t);
        }
        Ok(())
    }

    /// Appends `field` to the fields of the definition at position `i`.
    fn push_field(&mut self, i: usize, field: Field)
        requires
            i < old(self).types.len(),
        ensures
            final(self)@ == old(self)@.with_type(
                i as int,
                TypeDefinitionView {
                    fields: old(self)@.types[i as int].fields.push(field@),
                    ..old(self)@.types[i as int]
                },
            ),
    {
        let ghost before = self.types[i as int].fields;
        self.types[i].fields.push(field);
        proof {
            lemma_deep_view_push(before, self.types[i as int].fields, field);
            let t = old(self)@.types[i as int];
            assert(self@.types =~= old(self)@.types.update(
                i as int,
                TypeDefinitionView { fields: t.fields.push(field@), ..t },
            ));
        }
    }

    /// Adds `field` to the object or interface `owner`, which must be of kind
    /// `kind`. Refused where the type has a field of that name already or the
    /// field mentions a type that the schema does not define.
    pub fn insert_field(&mut self, owner: &str, kind: TypeKind, field: Field) -> (r: Result<
        (),
        FederationError,
    >)
        ensures
            outcome(r, final(self)@, old(self)@.insert_field(owner@, kind, field@)),
            r is Err ==> final(self)@ == old(self)@,
            same_kinds(old(self)@, final(self)@),
            new_members_of(old(self)@, final(self)@, owner@),
            r is Ok ==> placed(old(self)@, final(self)@, owner@, field@.name),
            old(self)@.closed() && r is Ok ==> final(self)@.closed(),
    {
        proof {
            lemma_insert_field_members(self@, owner@, kind, field@);
            lemma_insert_field_kinds(self@, owner@, kind, field@);
            lemma_insert_field_places(self@, owner@, kind, field@);
            if self@.closed() {
                lemma_insert_field_closed(self@, owner@, kind, field@);
            }
        }
        let i = self.locate(owner, kind)?;
        if self.types[i].has_field(field.name.as_str()) {
            return Err(
                FederationError::internal(
                    concat5("\"", owner, ".", field.name.as_str(), "\" already exists in schema"),
                ),
            );
        }
        if !self.defines_references(&field) {
            return Err(
                FederationError::internal(
                    concat5(
                        "\"",
                        owner,
                        ".",
                        field.name.as_str(),
                        "\" refers to a type that does not exist in schema",
                    ),
                ),
            );
        }
        self.push_field(i, field);
        Ok(())
    }

    /// Whether the schema defines the type of each argument of `d`.
    fn defines_argument_types(&self, d: &DirectiveDefinition) -> (r: bool)
        ensures
            r == self@.defines_all(d@.references()),
    {
        let mut i: usize = 0;
        while i < d.arguments.len()
            invariant
                i <= d.arguments.len(),
                forall|j: int| 0 <= j < i ==> self@.defines(d@.arguments[j].ty.name),
            decreases d.arguments.len() - i,
        {
            if !self.defines(d.arguments[i].ty.name.as_str()) {
                assert(d@.references()[i as int] == d@.arguments[i as int].ty.name);
                return false;
            }
            i += 1;
        }
        assert forall|k: int| 0 <= k < d@.references().len() implies self@.defines(
            #[trigger] d@.references()[k],
        ) by {
            assert(d@.references()[k] == d@.arguments[k].ty.name);
        }
        true
    }

    /// The position of the first directive definition named `name`.
    pub fn find_directive_definition(&self, name: &str) -> (r: Option<usize>)
        ensures
            match r {
                Some(i) => self@.directive_index(name@) == Some(i as int)
                    && i < self.directive_definitions.len(),
                None => self@.directive_index(name@).is_none(),
            },
    {
        let ghost p = |d: DirectiveDefinitionView| d.name == name@;
        let mut i: usize = 0;
        while i < self.directive_definitions.len()
            invariant
                i <= self.directive_definitions.len(),
                p == (|d: DirectiveDefinitionView| d.name == name@),
                forall|j: int| 0 <= j < i ==> !p(#[trigger] self@.directive_definitions[j]),
            decreases self.directive_definitions.len() - i,
        {
            if str_eq(self.directive_definitions[i].name.as_str(), name) {
                proof {
                    lemma_first_where_is(self@.directive_definitions, p, i as int);
                }
                return Some(i);
            }
            i += 1;
        }
        proof {
            lemma_first_where_none(self@.directive_definitions, p);
        }
        None
    }

    /// Appends `field` to the input fields of the definition at position `i`.
    fn push_input_field(&mut self, i: usize, field: InputValue)
        requires
            i < old(self).types.len(),
        ensures
            final(self)@ == old(self)@.with_type(
                i as int,
                TypeDefinitionView {
                    input_fields: old(self)@.types[i as int].input_fields.push(field@),
                    ..old(self)@.types[i as int]
                },
            ),
    {
        let ghost before = self.types[i as int].input_fields;
        self.types[i].input_fields.push(field);
        proof {
            lemma_deep_view_push(before, self.types[i as int].input_fields, field);
            let t = old(self)@.types[i as int];
            assert(self@.types =~= old(self)@.types.update(
                i as int,
                TypeDefinitionView { input_fields: t.input_fields.push(field@), ..t },
            ));
        }
    }

    /// Appends `value` to the values of the definition at position `i`.
    fn push_value(&mut self, i: usize, value: EnumValue)
        requires
            i < old(self).types.len(),
        ensures
            final(self)@ == old(self)@.with_type(
                i as int,
                TypeDefinitionView {
                    values: old(self)@.types[i as int].values.push(value@),
                    ..old(self)@.types[i as int]
                },
            ),
    {
        let ghost before = self.types[i as int].values;
        self.types[i].values.push(value);
        proof {
            lemma_deep_view_push(before, self.types[i as int].values, value);
            let t = old(self)@.types[i as int];
            assert(self@.types =~= old(self)@.types.update(
                i as int,
                TypeDefinitionView { values: t.values.push(value@), ..t },
            ));
        }
    }

    /// Appends `member` to the members of the definition at position `i`.
    fn push_member(&mut self, i: usize, member: String)
        requires
            i < old(self).types.len(),
        ensures
            final(self)@ == old(self)@.with_type(
                i as int,
                TypeDefinitionView {
                    members: old(self)@.types[i as int].members.push(member@),
                    ..old(self)@.types[i as int]
                },
            ),
    {
        let ghost before = self.types[i as int].members;
        self.types[i].members.push(member);
        proof {
            lemma_deep_view_push(before, self.types[i as int].members, member);
            let t = old(self)@.types[i as int];
            assert(self@.types =~= old(self)@.types.update(
                i as int,
                TypeDefinitionView { members: t.members.push(member@), ..t },
            ));
        }
    }

    /// Appends `interface` to the interfaces of the definition at position
    /// `i`.
    fn push_implements(&mut self, i: usize, interface: String)
        requires
            i < old(self).types.len(),
        ensures
            final(self)@ == old(self)@.with_type(
                i as int,
                TypeDefinitionView {
                    implements: old(self)@.types[i as int].implements.push(interface@),
                    ..old(self)@.types[i as int]
                },
            ),
    {
        let ghost before = self.types[i as int].implements;
        self.types[i].implements.push(interface);
        proof {
            lemma_deep_view_push(before, self.types[i as int].implements, interface);
            let t = old(self)@.types[i as int];
            assert(self@.types =~= old(self)@.types.update(
                i as int,
                TypeDefinitionView { implements: t.implements.push(interface@), ..t },
            ));
        }
    }

    /// Appends `directive` to the directives of the definition at position
    /// `i`.
    fn push_directive(&mut self, i: usize, directive: Directive)
        requires
            i < old(self).types.len(),
        ensures
            final(self)@ == old(self)@.with_type(
                i as int,
                TypeDefinitionView {
                    directives: old(self)@.types[i as int].directives.push(directive@),
                    ..old(self)@.types[i as int]
                },
            ),
    {
        let ghost before = self.types[i as int].directives;
        self.types[i].directives.push(directive);
        proof {
            lemma_deep_view_push(before, self.types[i as int].directives, directive);
            let t = old(self)@.types[i as int];
            assert(self@.types =~= old(self)@.types.update(
                i as int,
                TypeDefinitionView { directives: t.directives.push(directive@), ..t },
            ));
        }
    }

    /// Adds `field` to the input object `owner`, under the same checks as
    /// `insert_field`.
    pub fn insert_input_field(&mut self, owner: &str, field: InputValue) -> (r: Result<
        (),
        FederationError,
    >)
        ensures
            outcome(r, final(self)@, old(self)@.insert_input_field(owner@, field@)),
            r is Err ==> final(self)@ == old(self)@,
            same_kinds(old(self)@, final(self)@),
            new_members_of(old(self)@, final(self)@, owner@),
            r is Ok ==> placed(old(self)@, final(self)@, owner@, field@.name),
            old(self)@.closed() && r is Ok ==> final(self)@.closed(),
    {
        proof {
            lemma_insert_input_field_members(self@, owner@, field@);
            lemma_insert_input_field_kinds(self@, owner@, field@);
            lemma_insert_input_field_places(self@, owner@, field@);
            if self@.closed() {
                lemma_insert_input_field_closed(self@, owner@, field@);
            }
        }
        let i = self.locate(owner, TypeKind::InputObject)?;
        if self.types[i].has_input_field(field.name.as_str()) {
            return Err(
                FederationError::internal(
                    concat5("\"", owner, ".", field.name.as_str(), "\" already exists in schema"),
                ),
            );
        }
        if !self.defines(field.ty.name.as_str()) {
            return Err(
                FederationError::internal(
                    concat5(
                        "\"",
                        owner,
                        ".",
                        field.name.as_str(),
                        "\" refers to a type that does not exist in schema",
                    ),
                ),
            );
        }
        self.push_input_field(i, field);
        Ok(())
    }

    /// Adds a value without directives to the enum `owner`. Refused where the
    /// enum has the value already.
    pub fn insert_enum_value(&mut self, owner: &str, value: &str) -> (r: Result<
        (),
        FederationError,
    >)
        ensures
            outcome(r, final(self)@, old(self)@.insert_enum_value(owner@, value@)),
            r is Err ==> final(self)@ == old(self)@,
            same_kinds(old(self)@, final(self)@),
            new_members_of(old(self)@, final(self)@, owner@),
            r is Ok ==> placed(old(self)@, final(self)@, owner@, value@),
            old(self)@.closed() && r is Ok ==> final(self)@.closed(),
    {
        proof {
            lemma_insert_enum_value_members(self@, owner@, value@);
            lemma_insert_enum_value_kinds(self@, owner@, value@);
            lemma_insert_enum_value_places(self@, owner@, value@);
            if self@.closed() {
                lemma_insert_enum_value_closed(self@, owner@, value@);
            }
        }
        let i = self.locate(owner, TypeKind::Enum)?;
        if self.types[i].has_value(value) {
            return Err(
                FederationError::internal(
                    concat5("\"", owner, ".", value, "\" already exists in schema"),
                ),
            );
        }
        let v = EnumValue { name: String::from_str(value), directives: Vec::new() };
        proof {
            lemma_deep_view_empty(v.directives);
        }
        self.push_value(i, v);
        Ok(())
    }

    /// Adds `member` to the union `owner`, once. Refused where `member` is not
    /// an object type of the schema.
    pub fn insert_member(&mut self, owner: &str, member: &str) -> (r: Result<(), FederationError>)
        ensures
            outcome(r, final(self)@, old(self)@.insert_member(owner@, member@)),
            r is Err ==> final(self)@ == old(self)@,
            same_kinds(old(self)@, final(self)@),
            new_members_of(old(self)@, final(self)@, owner@),
            r is Ok ==> placed(old(self)@, final(self)@, owner@, member@),
            same_defined(old(self)@, final(self)@),
            old(self)@.closed() && r is Ok ==> final(self)@.closed(),
    {
        proof {
            lemma_insert_member_members(self@, owner@, member@);
            lemma_insert_member_kinds(self@, owner@, member@);
            lemma_insert_member_places(self@, owner@, member@);
            lemma_insert_member_defined(self@, owner@, member@);
            if self@.closed() {
                lemma_insert_member_closed(self@, owner@, member@);
            }
        }
        let i = self.locate(owner, TypeKind::Union)?;
        if !self.has_kind(member, TypeKind::Object) {
            return Err(
                FederationError::internal(
                    concat5(
                        "Union type \"",
                        owner,
                        "\"'s member type \"",
                        member,
                        "\" is not an object type",
                    ),
                ),
            );
        }
        if find_name(&self.types[i].members, member).is_none() {
            self.push_member(i, String::from_str(member));
        }
        Ok(())
    }

    /// Records, once, that `owner`, of kind `kind`, implements `interface`.
    /// Refused where `interface` is not an interface type of the schema.
    pub fn insert_implements(&mut self, owner: &str, kind: TypeKind, interface: &str) -> (r:
        Result<(), FederationError>)
        ensures
            outcome(r, final(self)@, old(self)@.insert_implements(owner@, kind, interface@)),
            r is Err ==> final(self)@ == old(self)@,
            same_kinds(old(self)@, final(self)@),
            no_new_member(old(self)@, final(self)@),
            r is Ok ==> no_new_member(final(self)@, old(self)@),
            old(self)@.closed() && r is Ok ==> final(self)@.closed(),
    {
        proof {
            lemma_insert_implements_members(self@, owner@, kind, interface@);
            lemma_insert_implements_kinds(self@, owner@, kind, interface@);
            lemma_insert_implements_keeps(self@, owner@, kind, interface@);
            if self@.closed() {
                lemma_insert_implements_closed(self@, owner@, kind, interface@);
            }
        }
        let i = self.locate(owner, kind)?;
        if !self.has_kind(interface, TypeKind::Interface) {
            return Err(
                FederationError::internal(
                    concat5(
                        "Type \"",
                        owner,
                        "\" implements \"",
                        interface,
                        "\", which is not an interface type",
                    ),
                ),
            );
        }
        if find_name(&self.types[i].implements, interface).is_none() {
            self.push_implements(i, String::from_str(interface));
        }
        Ok(())
    }

    /// Applies `directive` to the type `owner`, after those already there.
    pub fn insert_type_directive(&mut self, owner: &str, directive: Directive) -> (r: Result<
        (),
        FederationError,
    >)
        ensures
            outcome(r, final(self)@, old(self)@.insert_type_directive(owner@, directive@)),
            r is Err ==> final(self)@ == old(self)@,
            same_kinds(old(self)@, final(self)@),
            old(self)@.closed() && r is Ok ==> final(self)@.closed(),
    {
        proof {
            lemma_insert_type_directive_kinds(self@, owner@, directive@);
            if self@.closed() {
                lemma_insert_type_directive_closed(self@, owner@, directive@);
            }
        }
        match self.find_type(owner) {
            None => Err(
                FederationError::internal(concat3("Schema has no type \"", owner, "\"")),
            ),
            Some(i) => {
                self.push_directive(i, directive);
                Ok(())
            },
        }
    }

    /// The name of the type that serves the given root operation.
    pub fn root(&self, kind: RootKind) -> (r: &Option<String>)
        ensures
            r.deep_view() == self@.root(kind),
    {
        match kind {
            RootKind::Query => &self.query_type,
            RootKind::Mutation => &self.mutation_type,
            RootKind::Subscription => &self.subscription_type,
        }
    }

    /// Makes the object type `name` serve the root operation `kind`. Refused
    /// where that operation is served already or `name` is not an object type
    /// of the schema.
    pub fn insert_root(&mut self, kind: RootKind, name: &str) -> (r: Result<(), FederationError>)
        ensures
            outcome(r, final(self)@, old(self)@.insert_root(kind, name@)),
            r is Err ==> final(self)@ == old(self)@,
            same_kinds(old(self)@, final(self)@),
            old(self)@.closed() && r is Ok ==> final(self)@.closed(),
    {
        proof {
            if self@.closed() {
                lemma_insert_root_closed(self@, kind, name@);
            }
        }
        if self.root(kind).is_some() {
            return Err(
                FederationError::internal(
                    concat3("Root operation for \"", name, "\" already exists in schema"),
                ),
            );
        }
        if !self.has_kind(name, TypeKind::Object) {
            return Err(
                FederationError::internal(
                    concat3("Root operation type \"", name, "\" is not an object type"),
                ),
            );
        }
        match kind {
            RootKind::Query => {
                self.query_type = Some(String::from_str(name));
            },
            RootKind::Mutation => {
                self.mutation_type = Some(String::from_str(name));
            },
            RootKind::Subscription => {
                self.subscription_type = Some(String::from_str(name));
            },
        }
        Ok(())
    }

    /// Adds a directive definition. Refused where a directive of that name is
    /// defined already or an argument is of a type that the schema does not
    /// define.
    pub fn insert_directive_definition(&mut self, d: DirectiveDefinition) -> (r: Result<
        (),
        FederationError,
    >)
        ensures
            outcome(r, final(self)@, old(self)@.insert_directive_definition(d@)),
            r is Err ==> final(self)@ == old(self)@,
            same_kinds(old(self)@, final(self)@),
            old(self)@.closed() && r is Ok ==> final(self)@.closed(),
    {
        proof {
            if self@.closed() {
                lemma_insert_directive_definition_closed(self@, d@);
            }
        }
        if self.find_directive_definition(d.name.as_str()).is_some() {
            return Err(
                FederationError::internal(
                    concat3("Directive \"@", d.name.as_str(), "\" already exists in schema"),
                ),
            );
        }
        if !self.defines_argument_types(&d) {
            return Err(
                FederationError::internal(
                    concat3(
                        "Directive \"@",
                        d.name.as_str(),
                        "\" has an argument of a type that does not exist in schema",
                    ),
                ),
            );
        }
        let ghost before = self.directive_definitions;
        self.directive_definitions.push(d);
        proof {
            lemma_deep_view_push(before, self.directive_definitions, d);
        }
        Ok(())
    }

    /// Removes the fields named `field` from the object type `owner`, if the
    /// schema has that type.
    pub fn remove_field(&mut self, owner: &str, field: &str)
        ensures
            final(self)@ == old(self)@.remove_field(owner@, field@),
            same_kinds(old(self)@, final(self)@),
            old(self)@.closed() ==> final(self)@.closed(),
    {
        proof {
            lemma_remove_field_kinds(self@, owner@, field@);
            if self@.closed() {
                lemma_remove_field_closed(self@, owner@, field@);
            }
        }
        match self.locate(owner, TypeKind::Object) {
            Err(_) => {},
            Ok(i) => {
                remove_fields_named(&mut self.types[i].fields, field);
                proof {
                    let t = old(self)@.types[i as int];
                    assert(self@.types =~= old(self)@.types.update(
                        i as int,
                        TypeDefinitionView {
                            fields: t.fields.filter(|f: FieldView| f.name != field@),
                            ..t
                        },
                    ));
                }
            },
        }
    }
}

} // verus!
