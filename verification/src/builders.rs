//! Constructors for the values of a schema, each stated over the value that
//! it builds.
use crate::edits::shell;
use crate::federation::{
    definition, input_value, make_definition, make_input_value, make_plain_directive, named_type,
    non_null_type, plain_directive,
};
use crate::operations::plain_field;
use crate::schema::{
    ArgValue, ArgValueView, Argument, ArgumentView, Directive, DirectiveDefinition,
    DirectiveLocation, DirectiveView, EnumValue, EnumValueView, Field, FieldView, InputValue,
    InputValueView, Schema, SchemaView, TypeDefinition, TypeDefinitionView, TypeKind, TypeRef,
    TypeRefView,
};
use crate::seqs::{lemma_deep_view_empty, lemma_deep_view_push};
use vstd::prelude::*;
use vstd::string::*;

verus! {

impl TypeRef {
    /// The nullable type `name`.
    pub fn named(name: &str) -> (r: TypeRef)
        ensures
            r@ == named_type(name@),
    {
        TypeRef { name: String::from_str(name), non_null: false, lists: Vec::new() }
    }

    /// The non-null type `name!`.
    pub fn non_null(name: &str) -> (r: TypeRef)
        ensures
            r@ == non_null_type(name@),
    {
        TypeRef { name: String::from_str(name), non_null: true, lists: Vec::new() }
    }

    /// The list of `self`, non-null where `non_null` is set: a new outermost
    /// layer.
    pub fn list(self, non_null: bool) -> (r: TypeRef)
        ensures
            r@ == (TypeRefView { lists: seq![non_null] + self@.lists, ..self@ }),
    {
        let mut lists = self.lists;
        lists.insert(0, non_null);
        assert(lists@ =~= seq![non_null] + self@.lists);
        TypeRef { name: self.name, non_null: self.non_null, lists }
    }
}

impl Directive {
    /// An application of the directive `name`, without arguments, on a
    /// definition.
    pub fn new(name: &str) -> (r: Directive)
        ensures
            r@ == plain_directive(name@),
    {
        make_plain_directive(name)
    }

    /// The application with one more argument.
    pub fn with_argument(self, name: &str, value: ArgValue) -> (r: Directive)
        ensures
            r@ == (DirectiveView {
                arguments: self@.arguments.push(ArgumentView { name: name@, value: value@ }),
                ..self@
            }),
    {
        let mut arguments = self.arguments;
        let ghost before = arguments;
        let a = Argument { name: String::from_str(name), value };
        arguments.push(a);
        proof {
            lemma_deep_view_push(before, arguments, a);
        }
        Directive { name: self.name, arguments, extension: self.extension }
    }

    /// The application with a string argument more.
    pub fn with_string(self, name: &str, value: &str) -> (r: Directive)
        ensures
            r@ == (DirectiveView {
                arguments: self@.arguments.push(
                    ArgumentView { name: name@, value: ArgValueView::Str(value@) },
                ),
                ..self@
            }),
    {
        self.with_argument(name, ArgValue::Str(String::from_str(value)))
    }

    /// The application with an enum argument more.
    pub fn with_enum(self, name: &str, value: &str) -> (r: Directive)
        ensures
            r@ == (DirectiveView {
                arguments: self@.arguments.push(
                    ArgumentView { name: name@, value: ArgValueView::Enum(value@) },
                ),
                ..self@
            }),
    {
        self.with_argument(name, ArgValue::Enum(String::from_str(value)))
    }

    /// The application with a boolean argument more.
    pub fn with_bool(self, name: &str, value: bool) -> (r: Directive)
        ensures
            r@ == (DirectiveView {
                arguments: self@.arguments.push(
                    ArgumentView { name: name@, value: ArgValueView::Bool(value) },
                ),
                ..self@
            }),
    {
        self.with_argument(name, ArgValue::Bool(value))
    }
}

impl InputValue {
    /// An input value without default and without directives.
    pub fn new(name: &str, ty: TypeRef) -> (r: InputValue)
        ensures
            r@ == input_value(name@, ty@),
    {
        make_input_value(name, ty)
    }

    /// The input value with one more directive.
    pub fn with_directive(self, d: Directive) -> (r: InputValue)
        ensures
            r@ == (InputValueView { directives: self@.directives.push(d@), ..self@ }),
    {
        let mut directives = self.directives;
        let ghost before = directives;
        directives.push(d);
        proof {
            lemma_deep_view_push(before, directives, d);
        }
        InputValue {
            name: self.name,
            ty: self.ty,
            default_value: self.default_value,
            directives,
        }
    }
}

impl Field {
    /// A field without arguments and without directives.
    pub fn new(name: &str, ty: TypeRef) -> (r: Field)
        ensures
            r@ == plain_field(name@, ty@),
    {
        let r = Field {
            name: String::from_str(name),
            arguments: Vec::new(),
            ty,
            directives: Vec::new(),
        };
        proof {
            lemma_deep_view_empty(r.arguments);
            lemma_deep_view_empty(r.directives);
        }
        r
    }

    /// The field with one more argument.
    pub fn with_argument(self, a: InputValue) -> (r: Field)
        ensures
            r@ == (FieldView { arguments: self@.arguments.push(a@), ..self@ }),
    {
        let mut arguments = self.arguments;
        let ghost before = arguments;
        arguments.push(a);
        proof {
            lemma_deep_view_push(before, arguments, a);
        }
        Field { name: self.name, arguments, ty: self.ty, directives: self.directives }
    }

    /// The field with one more directive.
    pub fn with_directive(self, d: Directive) -> (r: Field)
        ensures
            r@ == (FieldView { directives: self@.directives.push(d@), ..self@ }),
    {
        let mut directives = self.directives;
        let ghost before = directives;
        directives.push(d);
        proof {
            lemma_deep_view_push(before, directives, d);
        }
        Field { name: self.name, arguments: self.arguments, ty: self.ty, directives }
    }
}

impl EnumValue {
    /// An enum value without directives.
    pub fn new(name: &str) -> (r: EnumValue)
        ensures
            r@ == (EnumValueView { name: name@, directives: Seq::empty() }),
    {
        let r = EnumValue { name: String::from_str(name), directives: Vec::new() };
        proof {
            lemma_deep_view_empty(r.directives);
        }
        r
    }

    /// The enum value with one more directive.
    pub fn with_directive(self, d: Directive) -> (r: EnumValue)
        ensures
            r@ == (EnumValueView { directives: self@.directives.push(d@), ..self@ }),
    {
        let mut directives = self.directives;
        let ghost before = directives;
        directives.push(d);
        proof {
            lemma_deep_view_push(before, directives, d);
        }
        EnumValue { name: self.name, directives }
    }
}

impl TypeDefinition {
    /// A type of the given kind without content.
    pub fn new(kind: TypeKind, name: &str) -> (r: TypeDefinition)
        ensures
            r@ == shell(name@, kind, Seq::empty()),
    {
        let r = TypeDefinition {
            name: String::from_str(name),
            kind,
            directives: Vec::new(),
            implements: Vec::new(),
            fields: Vec::new(),
            members: Vec::new(),
            values: Vec::new(),
            input_fields: Vec::new(),
        };
        proof {
            lemma_deep_view_empty(r.directives);
            lemma_deep_view_empty(r.implements);
            lemma_deep_view_empty(r.fields);
            lemma_deep_view_empty(r.members);
            lemma_deep_view_empty(r.values);
            lemma_deep_view_empty(r.input_fields);
        }
        r
    }

    /// The type with one more directive.
    pub fn with_directive(self, d: Directive) -> (r: TypeDefinition)
        ensures
            r@ == (TypeDefinitionView { directives: self@.directives.push(d@), ..self@ }),
    {
        let mut t = self;
        let ghost before = t.directives;
        t.directives.push(d);
        proof {
            lemma_deep_view_push(before, t.directives, d);
        }
        t
    }

    /// The type with one more field.
    pub fn with_field(self, f: Field) -> (r: TypeDefinition)
        ensures
            r@ == (TypeDefinitionView { fields: self@.fields.push(f@), ..self@ }),
    {
        let mut t = self;
        let ghost before = t.fields;
        t.fields.push(f);
        proof {
            lemma_deep_view_push(before, t.fields, f);
        }
        t
    }

    /// The type with one more input field.
    pub fn with_input_field(self, f: InputValue) -> (r: TypeDefinition)
        ensures
            r@ == (TypeDefinitionView { input_fields: self@.input_fields.push(f@), ..self@ }),
    {
        let mut t = self;
        let ghost before = t.input_fields;
        t.input_fields.push(f);
        proof {
            lemma_deep_view_push(before, t.input_fields, f);
        }
        t
    }

    /// The type with one more enum value.
    pub fn with_value(self, v: EnumValue) -> (r: TypeDefinition)
        ensures
            r@ == (TypeDefinitionView { values: self@.values.push(v@), ..self@ }),
    {
        let mut t = self;
        let ghost before = t.values;
        t.values.push(v);
        proof {
            lemma_deep_view_push(before, t.values, v);
        }
        t
    }

    /// The type with one more union member.
    pub fn with_member(self, name: &str) -> (r: TypeDefinition)
        ensures
            r@ == (TypeDefinitionView { members: self@.members.push(name@), ..self@ }),
    {
        let mut t = self;
        let ghost before = t.members;
        let m = String::from_str(name);
        t.members.push(m);
        proof {
            lemma_deep_view_push(before, t.members, m);
        }
        t
    }

    /// The type with one more implemented interface.
    pub fn with_interface(self, name: &str) -> (r: TypeDefinition)
        ensures
            r@ == (TypeDefinitionView { implements: self@.implements.push(name@), ..self@ }),
    {
        let mut t = self;
        let ghost before = t.implements;
        let m = String::from_str(name);
        t.implements.push(m);
        proof {
            lemma_deep_view_push(before, t.implements, m);
        }
        t
    }
}

impl DirectiveDefinition {
    /// A directive definition.
    pub fn new(
        name: &str,
        arguments: Vec<InputValue>,
        repeatable: bool,
        locations: Vec<DirectiveLocation>,
    ) -> (r: DirectiveDefinition)
        ensures
            r@ == definition(
                name@,
                arguments.deep_view(),
                repeatable,
                locations@,
            ),
    {
        make_definition(name, arguments, repeatable, locations)
    }
}

impl SchemaView {
    /// The schema without anything.
    pub open spec fn empty() -> SchemaView {
        SchemaView {
            directives: Seq::empty(),
            query_type: None,
            mutation_type: None,
            subscription_type: None,
            types: Seq::empty(),
            directive_definitions: Seq::empty(),
        }
    }
}

impl Schema {
    /// The schema without anything.
    pub fn new() -> (r: Schema)
        ensures
            r@ == SchemaView::empty(),
    {
        let r = Schema {
            directives: Vec::new(),
            query_type: None,
            mutation_type: None,
            subscription_type: None,
            types: Vec::new(),
            directive_definitions: Vec::new(),
        };
        proof {
            lemma_deep_view_empty(r.directives);
            lemma_deep_view_empty(r.types);
            lemma_deep_view_empty(r.directive_definitions);
        }
        r
    }
}

} // verus!
