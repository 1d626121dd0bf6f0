//! A GraphQL type-system document as plain data: type expressions, directive
//! applications, type definitions and the schema that holds them, each with
//! its mathematical value.
use crate::seqs::lemma_deep_view_push;
use vstd::prelude::*;

verus! {

/// The mathematical value of a `TypeRef`.
pub struct TypeRefView {
    pub name: Seq<char>,
    pub non_null: bool,
    pub lists: Seq<bool>,
}

/// A type expression: a named type, possibly non-null, inside any number of
/// list layers. `lists` holds one flag per layer, outermost first, which is
/// set when that layer is non-null. `[[Int!]]!` has the name `Int`, is
/// non-null, and has the layers `[true, false]`.
#[derive(Debug, PartialEq, Eq)]
pub struct TypeRef {
    pub name: String,
    pub non_null: bool,
    pub lists: Vec<bool>,
}

impl View for TypeRef {
    type V = TypeRefView;

    open spec fn view(&self) -> TypeRefView {
        TypeRefView { name: self.name@, non_null: self.non_null, lists: self.lists@ }
    }
}

impl DeepView for TypeRef {
    type V = TypeRefView;

    open spec fn deep_view(&self) -> TypeRefView {
        self@
    }
}

impl Clone for TypeRef {
    fn clone(&self) -> (r: Self)
        ensures
            r@ == self@,
    {
        let mut lists: Vec<bool> = Vec::new();
        let mut i: usize = 0;
        while i < self.lists.len()
            invariant
                i <= self.lists.len(),
                lists@ == self.lists@.take(i as int),
            decreases self.lists.len() - i,
        {
            lists.push(self.lists[i]);
            assert(self.lists@.take(i as int).push(self.lists@[i as int]) =~= self.lists@.take(
                i + 1,
            ));
            i += 1;
        }
        assert(self.lists@.take(self.lists.len() as int) =~= self.lists@);
        TypeRef { name: self.name.clone(), non_null: self.non_null, lists }
    }
}

/// The mathematical value of an `ArgValue`.
pub enum ArgValueView {
    Str(Seq<char>),
    Bool(bool),
    Enum(Seq<char>),
    Other(Seq<char>),
}

/// The value of a directive argument. Strings, booleans and enum values are
/// held as such; any other value is held as its GraphQL text.
#[derive(Debug, PartialEq, Eq)]
pub enum ArgValue {
    Str(String),
    Bool(bool),
    Enum(String),
    Other(String),
}

impl View for ArgValue {
    type V = ArgValueView;

    open spec fn view(&self) -> ArgValueView {
        match self {
            ArgValue::Str(s) => ArgValueView::Str(s@),
            ArgValue::Bool(b) => ArgValueView::Bool(*b),
            ArgValue::Enum(s) => ArgValueView::Enum(s@),
            ArgValue::Other(s) => ArgValueView::Other(s@),
        }
    }
}

impl Clone for ArgValue {
    fn clone(&self) -> (r: Self)
        ensures
            r@ == self@,
    {
        match self {
            ArgValue::Str(s) => ArgValue::Str(s.clone()),
            ArgValue::Bool(b) => ArgValue::Bool(*b),
            ArgValue::Enum(s) => ArgValue::Enum(s.clone()),
            ArgValue::Other(s) => ArgValue::Other(s.clone()),
        }
    }
}

/// The mathematical value of an `Argument`.
pub struct ArgumentView {
    pub name: Seq<char>,
    pub value: ArgValueView,
}

/// One named argument of a directive application.
#[derive(Debug, PartialEq, Eq)]
pub struct Argument {
    pub name: String,
    pub value: ArgValue,
}

impl View for Argument {
    type V = ArgumentView;

    open spec fn view(&self) -> ArgumentView {
        ArgumentView { name: self.name@, value: self.value@ }
    }
}

impl DeepView for Argument {
    type V = ArgumentView;

    open spec fn deep_view(&self) -> ArgumentView {
        self@
    }
}

impl Clone for Argument {
    fn clone(&self) -> (r: Self)
        ensures
            r@ == self@,
    {
        Argument { name: self.name.clone(), value: self.value.clone() }
    }
}

/// The mathematical value of a `Directive`.
pub struct DirectiveView {
    pub name: Seq<char>,
    pub arguments: Seq<ArgumentView>,
    pub extension: bool,
}

/// A directive application. `extension` is set when the application sits on
/// an extension of the element rather than on its definition.
#[derive(Debug, PartialEq, Eq)]
pub struct Directive {
    pub name: String,
    pub arguments: Vec<Argument>,
    pub extension: bool,
}

impl View for Directive {
    type V = DirectiveView;

    open spec fn view(&self) -> DirectiveView {
        DirectiveView {
            name: self.name@,
            arguments: self.arguments.deep_view(),
            extension: self.extension,
        }
    }
}

impl DeepView for Directive {
    type V = DirectiveView;

    open spec fn deep_view(&self) -> DirectiveView {
        self@
    }
}

impl Clone for Directive {
    fn clone(&self) -> (r: Self)
        ensures
            r@ == self@,
    {
        let mut arguments: Vec<Argument> = Vec::new();
        let mut i: usize = 0;
        while i < self.arguments.len()
            invariant
                i <= self.arguments.len(),
                arguments.deep_view() == self.arguments.deep_view().take(i as int),
            decreases self.arguments.len() - i,
        {
            let ghost before = arguments;
            let a = self.arguments[i].clone();
            arguments.push(a);
            proof {
                lemma_deep_view_push(before, arguments, a);
                assert(arguments.deep_view() =~= self.arguments.deep_view().take(i + 1));
            }
            i += 1;
        }
        assert(self.arguments.deep_view().take(self.arguments.len() as int)
            =~= self.arguments.deep_view());
        Directive { name: self.name.clone(), arguments, extension: self.extension }
    }
}

/// The mathematical value of an `InputValue`.
pub struct InputValueView {
    pub name: Seq<char>,
    pub ty: TypeRefView,
    pub default_value: Option<Seq<char>>,
    pub directives: Seq<DirectiveView>,
}

/// A field argument, a directive argument definition or an input-object
/// field. The default value is held as its GraphQL text.
#[derive(Debug, PartialEq, Eq)]
pub struct InputValue {
    pub name: String,
    pub ty: TypeRef,
    pub default_value: Option<String>,
    pub directives: Vec<Directive>,
}

impl View for InputValue {
    type V = InputValueView;

    open spec fn view(&self) -> InputValueView {
        InputValueView {
            name: self.name@,
            ty: self.ty@,
            default_value: self.default_value.deep_view(),
            directives: self.directives.deep_view(),
        }
    }
}

impl DeepView for InputValue {
    type V = InputValueView;

    open spec fn deep_view(&self) -> InputValueView {
        self@
    }
}

/// A copy of the directive applications.
pub fn clone_directives(directives: &Vec<Directive>) -> (r: Vec<Directive>)
    ensures
        r.deep_view() == directives.deep_view(),
{
    let mut r: Vec<Directive> = Vec::new();
    let mut i: usize = 0;
    while i < directives.len()
        invariant
            i <= directives.len(),
            r.len() == i,
            forall|j: int| 0 <= j < i ==> (#[trigger] r.deep_view()[j]) == directives.deep_view()[j],
        decreases directives.len() - i,
    {
        let ghost before = r;
        let d = directives[i].clone();
        r.push(d);
        proof {
            lemma_deep_view_push(before, r, d);
        }
        i += 1;
    }
    assert(r.deep_view() =~= directives.deep_view());
    r
}

impl Clone for InputValue {
    fn clone(&self) -> (r: Self)
        ensures
            r@ == self@,
    {
        let default_value = match &self.default_value {
            Some(v) => Some(v.clone()),
            None => None,
        };
        InputValue {
            name: self.name.clone(),
            ty: self.ty.clone(),
            default_value,
            directives: clone_directives(&self.directives),
        }
    }
}

impl InputValueView {
    /// The same input value with no directive applied to it.
    pub open spec fn bare(self) -> InputValueView {
        InputValueView { directives: Seq::empty(), ..self }
    }
}

impl InputValue {
    /// A copy of the input value with no directive applied to it.
    pub fn bare(&self) -> (r: InputValue)
        ensures
            r@ == self@.bare(),
    {
        let default_value = match &self.default_value {
            Some(v) => Some(v.clone()),
            None => None,
        };
        let r = InputValue {
            name: self.name.clone(),
            ty: self.ty.clone(),
            default_value,
            directives: Vec::new(),
        };
        assert(r.directives.deep_view() =~= Seq::<DirectiveView>::empty());
        r
    }
}

/// The mathematical value of a `Field`.
pub struct FieldView {
    pub name: Seq<char>,
    pub arguments: Seq<InputValueView>,
    pub ty: TypeRefView,
    pub directives: Seq<DirectiveView>,
}

/// A field of an object or interface type.
#[derive(Debug, PartialEq, Eq)]
pub struct Field {
    pub name: String,
    pub arguments: Vec<InputValue>,
    pub ty: TypeRef,
    pub directives: Vec<Directive>,
}

impl View for Field {
    type V = FieldView;

    open spec fn view(&self) -> FieldView {
        FieldView {
            name: self.name@,
            arguments: self.arguments.deep_view(),
            ty: self.ty@,
            directives: self.directives.deep_view(),
        }
    }
}

impl DeepView for Field {
    type V = FieldView;

    open spec fn deep_view(&self) -> FieldView {
        self@
    }
}

/// The mathematical value of an `EnumValue`.
pub struct EnumValueView {
    pub name: Seq<char>,
    pub directives: Seq<DirectiveView>,
}

/// A value of an enum type.
#[derive(Debug, PartialEq, Eq)]
pub struct EnumValue {
    pub name: String,
    pub directives: Vec<Directive>,
}

impl View for EnumValue {
    type V = EnumValueView;

    open spec fn view(&self) -> EnumValueView {
        EnumValueView { name: self.name@, directives: self.directives.deep_view() }
    }
}

impl DeepView for EnumValue {
    type V = EnumValueView;

    open spec fn deep_view(&self) -> EnumValueView {
        self@
    }
}

/// The kinds of type definition.
#[derive(Debug, Clone, Copy, PartialEq, Eq, Structural)]
pub enum TypeKind {
    Scalar,
    Object,
    Interface,
    Union,
    Enum,
    InputObject,
}

/// The mathematical value of a `TypeDefinition`.
pub struct TypeDefinitionView {
    pub name: Seq<char>,
    pub kind: TypeKind,
    pub directives: Seq<DirectiveView>,
    pub implements: Seq<Seq<char>>,
    pub fields: Seq<FieldView>,
    pub members: Seq<Seq<char>>,
    pub values: Seq<EnumValueView>,
    pub input_fields: Seq<InputValueView>,
}

/// A type definition. Which of the collections carry content depends on the
/// kind: `implements` and `fields` for objects and interfaces, `members` for
/// unions, `values` for enums, `input_fields` for input objects.
#[derive(Debug, PartialEq, Eq)]
pub struct TypeDefinition {
    pub name: String,
    pub kind: TypeKind,
    pub directives: Vec<Directive>,
    pub implements: Vec<String>,
    pub fields: Vec<Field>,
    pub members: Vec<String>,
    pub values: Vec<EnumValue>,
    pub input_fields: Vec<InputValue>,
}

impl View for TypeDefinition {
    type V = TypeDefinitionView;

    open spec fn view(&self) -> TypeDefinitionView {
        TypeDefinitionView {
            name: self.name@,
            kind: self.kind,
            directives: self.directives.deep_view(),
            implements: self.implements.deep_view(),
            fields: self.fields.deep_view(),
            members: self.members.deep_view(),
            values: self.values.deep_view(),
            input_fields: self.input_fields.deep_view(),
        }
    }
}

impl DeepView for TypeDefinition {
    type V = TypeDefinitionView;

    open spec fn deep_view(&self) -> TypeDefinitionView {
        self@
    }
}

/// Where a directive may be applied.
#[derive(Debug, Clone, Copy, PartialEq, Eq, Structural)]
pub enum DirectiveLocation {
    Query,
    Mutation,
    Subscription,
    Field,
    FragmentDefinition,
    FragmentSpread,
    InlineFragment,
    VariableDefinition,
    Schema,
    Scalar,
    Object,
    FieldDefinition,
    ArgumentDefinition,
    Interface,
    Union,
    Enum,
    EnumValue,
    InputObject,
    InputFieldDefinition,
}

/// The mathematical value of a `DirectiveDefinition`.
pub struct DirectiveDefinitionView {
    pub name: Seq<char>,
    pub arguments: Seq<InputValueView>,
    pub repeatable: bool,
    pub locations: Seq<DirectiveLocation>,
}

/// The definition of a directive.
#[derive(Debug, PartialEq, Eq)]
pub struct DirectiveDefinition {
    pub name: String,
    pub arguments: Vec<InputValue>,
    pub repeatable: bool,
    pub locations: Vec<DirectiveLocation>,
}

impl View for DirectiveDefinition {
    type V = DirectiveDefinitionView;

    open spec fn view(&self) -> DirectiveDefinitionView {
        DirectiveDefinitionView {
            name: self.name@,
            arguments: self.arguments.deep_view(),
            repeatable: self.repeatable,
            locations: self.locations@,
        }
    }
}

impl DeepView for DirectiveDefinition {
    type V = DirectiveDefinitionView;

    open spec fn deep_view(&self) -> DirectiveDefinitionView {
        self@
    }
}

impl Clone for DirectiveDefinition {
    fn clone(&self) -> (r: Self)
        ensures
            r@ == self@,
    {
        let mut arguments: Vec<InputValue> = Vec::new();
        let mut i: usize = 0;
        while i < self.arguments.len()
            invariant
                i <= self.arguments.len(),
                arguments.len() == i,
                forall|j: int|
                    0 <= j < i ==> (#[trigger] arguments.deep_view()[j])
                        == self.arguments.deep_view()[j],
            decreases self.arguments.len() - i,
        {
            let ghost before = arguments;
            let a = self.arguments[i].clone();
            arguments.push(a);
            proof {
                lemma_deep_view_push(before, arguments, a);
            }
            i += 1;
        }
        assert(arguments.deep_view() =~= self.arguments.deep_view());
        let mut locations: Vec<DirectiveLocation> = Vec::new();
        let mut k: usize = 0;
        while k < self.locations.len()
            invariant
                k <= self.locations.len(),
                locations@ == self.locations@.take(k as int),
            decreases self.locations.len() - k,
        {
            locations.push(self.locations[k]);
            assert(self.locations@.take(k as int).push(self.locations@[k as int])
                =~= self.locations@.take(k + 1));
            k += 1;
        }
        assert(self.locations@.take(self.locations.len() as int) =~= self.locations@);
        DirectiveDefinition {
            name: self.name.clone(),
            arguments,
            repeatable: self.repeatable,
            locations,
        }
    }
}

/// The mathematical value of a `Schema`.
pub struct SchemaView {
    pub directives: Seq<DirectiveView>,
    pub query_type: Option<Seq<char>>,
    pub mutation_type: Option<Seq<char>>,
    pub subscription_type: Option<Seq<char>>,
    pub types: Seq<TypeDefinitionView>,
    pub directive_definitions: Seq<DirectiveDefinitionView>,
}

/// A type-system document: the directives applied to the schema itself, the
/// root operation types, the type definitions and the directive definitions,
/// each collection in document order. The five built-in scalars are not
/// listed among the types.
#[derive(Debug, PartialEq, Eq)]
pub struct Schema {
    pub directives: Vec<Directive>,
    pub query_type: Option<String>,
    pub mutation_type: Option<String>,
    pub subscription_type: Option<String>,
    pub types: Vec<TypeDefinition>,
    pub directive_definitions: Vec<DirectiveDefinition>,
}

impl View for Schema {
    type V = SchemaView;

    open spec fn view(&self) -> SchemaView {
        SchemaView {
            directives: self.directives.deep_view(),
            query_type: self.query_type.deep_view(),
            mutation_type: self.mutation_type.deep_view(),
            subscription_type: self.subscription_type.deep_view(),
            types: self.types.deep_view(),
            directive_definitions: self.directive_definitions.deep_view(),
        }
    }
}

impl DeepView for Schema {
    type V = SchemaView;

    open spec fn deep_view(&self) -> SchemaView {
        self@
    }
}

} // verus!
