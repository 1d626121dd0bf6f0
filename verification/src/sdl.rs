//! A schema written out as a GraphQL document.
use crate::seqs::{first_where, lemma_first_where_is, lemma_first_where_none};
use crate::schema::{
    ArgValue, ArgValueView, ArgumentView, Directive, DirectiveDefinition, DirectiveDefinitionView,
    DirectiveLocation, DirectiveView, EnumValue, EnumValueView, Field, FieldView, InputValue,
    InputValueView, Schema, SchemaView, TypeDefinition, TypeDefinitionView, TypeKind, TypeRef,
    TypeRefView,
};
use vstd::prelude::*;
use vstd::string::*;

verus! {

/// The texts of the items, one after the other.
pub open spec fn concat_map<T>(items: Seq<T>, f: spec_fn(T) -> Seq<char>) -> Seq<char>
    decreases items.len(),
{
    if items.len() == 0 {
        Seq::empty()
    } else {
        concat_map(items.drop_last(), f) + f(items.last())
    }
}

/// The texts of the items, with `sep` between each and the next.
pub open spec fn join_map<T>(items: Seq<T>, f: spec_fn(T) -> Seq<char>, sep: Seq<char>) -> Seq<
    char,
>
    decreases items.len(),
{
    if items.len() == 0 {
        Seq::empty()
    } else if items.len() == 1 {
        f(items[0])
    } else {
        join_map(items.drop_last(), f, sep) + sep + f(items.last())
    }
}

/// What `concat_map` adds for one more item.
pub proof fn lemma_concat_map_next<T>(items: Seq<T>, f: spec_fn(T) -> Seq<char>, k: int)
    requires
        0 <= k < items.len(),
    ensures
        concat_map(items.take(k + 1), f) == concat_map(items.take(k), f) + f(items[k]),
{
    assert(items.take(k + 1).drop_last() =~= items.take(k));
}

/// What `join_map` adds for one more item.
pub proof fn lemma_join_map_next<T>(
    items: Seq<T>,
    f: spec_fn(T) -> Seq<char>,
    sep: Seq<char>,
    k: int,
)
    requires
        0 <= k < items.len(),
    ensures
        join_map(items.take(k + 1), f, sep) == if k == 0 {
            f(items[k])
        } else {
            join_map(items.take(k), f, sep) + sep + f(items[k])
        },
{
    assert(items.take(k + 1).drop_last() =~= items.take(k));
}

/// `n` opening brackets.
pub open spec fn openers(n: nat) -> Seq<char>
    decreases n,
{
    if n == 0 {
        Seq::empty()
    } else {
        openers((n - 1) as nat) + "["@
    }
}

/// An exclamation mark, where the flag is set.
pub open spec fn bang(non_null: bool) -> Seq<char> {
    if non_null {
        "!"@
    } else {
        Seq::empty()
    }
}

/// The closing brackets of the list layers, innermost first, each followed
/// by an exclamation mark where the layer is non-null.
pub open spec fn closers(lists: Seq<bool>) -> Seq<char>
    decreases lists.len(),
{
    if lists.len() == 0 {
        Seq::empty()
    } else {
        closers(lists.drop_first()) + "]"@ + bang(lists[0])
    }
}

/// A type expression, such as `[Foo!]!`.
pub open spec fn type_text(t: TypeRefView) -> Seq<char> {
    openers(t.lists.len()) + t.name + bang(t.non_null) + closers(t.lists)
}

/// A character as it stands inside a quoted string.
pub open spec fn escaped(c: char) -> Seq<char> {
    if c == '"' {
        "\\\""@
    } else if c == '\\' {
        "\\\\"@
    } else if c == '\n' {
        "\\n"@
    } else if c == '\r' {
        "\\r"@
    } else if c == '\t' {
        "\\t"@
    } else {
        seq![c]
    }
}

/// The escaping of characters.
pub open spec fn escaping() -> spec_fn(char) -> Seq<char> {
    |c: char| escaped(c)
}

/// A string between double quotes, with its quotes, backslashes, line breaks
/// and tabs escaped.
pub open spec fn quoted(s: Seq<char>) -> Seq<char> {
    "\""@ + concat_map(s, escaping()) + "\""@
}

/// The value of an argument.
pub open spec fn value_text(v: ArgValueView) -> Seq<char> {
    match v {
        ArgValueView::Str(s) => quoted(s),
        ArgValueView::Bool(b) => if b {
            "true"@
        } else {
            "false"@
        },
        ArgValueView::Enum(s) => s,
        ArgValueView::Other(s) => s,
    }
}

/// An argument of a directive application: `name: value`.
pub open spec fn argument_text() -> spec_fn(ArgumentView) -> Seq<char> {
    |a: ArgumentView| a.name + ": "@ + value_text(a.value)
}

/// A list between parentheses, or nothing where the list is empty.
pub open spec fn parenthesized(count: nat, inner: Seq<char>) -> Seq<char> {
    if count == 0 {
        Seq::empty()
    } else {
        "("@ + inner + ")"@
    }
}

/// A directive application, after a space: ` @name(arguments)`.
pub open spec fn directive_text(d: DirectiveView) -> Seq<char> {
    " @"@ + d.name + parenthesized(
        d.arguments.len(),
        join_map(d.arguments, argument_text(), ", "@),
    )
}

/// The writing of every directive application.
pub open spec fn any_directive() -> spec_fn(DirectiveView) -> Seq<char> {
    |d: DirectiveView| directive_text(d)
}

/// The writing of the directive applications that sit on an extension, or of
/// those that do not.
pub open spec fn directive_on(extension: bool) -> spec_fn(DirectiveView) -> Seq<char> {
    |d: DirectiveView|
        if d.extension == extension {
            directive_text(d)
        } else {
            Seq::empty()
        }
}

/// The default value of an input value, after an equals sign.
pub open spec fn default_text(v: Option<Seq<char>>) -> Seq<char> {
    match v {
        Some(t) => " = "@ + t,
        None => Seq::empty(),
    }
}

/// An input value: `name: Type = default @directives`.
pub open spec fn input_text() -> spec_fn(InputValueView) -> Seq<char> {
    |v: InputValueView|
        v.name + ": "@ + type_text(v.ty) + default_text(v.default_value) + concat_map(
            v.directives,
            any_directive(),
        )
}

/// The arguments of a field or of a directive definition.
pub open spec fn arguments_text(arguments: Seq<InputValueView>) -> Seq<char> {
    parenthesized(arguments.len(), join_map(arguments, input_text(), ", "@))
}

/// A field, on a line of its own.
pub open spec fn field_text() -> spec_fn(FieldView) -> Seq<char> {
    |f: FieldView|
        "  "@ + f.name + arguments_text(f.arguments) + ": "@ + type_text(f.ty) + concat_map(
            f.directives,
            any_directive(),
        ) + "\n"@
}

/// An input field, on a line of its own.
pub open spec fn input_field_text() -> spec_fn(InputValueView) -> Seq<char> {
    |v: InputValueView| "  "@ + input_text()(v) + "\n"@
}

/// An enum value, on a line of its own.
pub open spec fn enum_value_text() -> spec_fn(EnumValueView) -> Seq<char> {
    |v: EnumValueView| "  "@ + v.name + concat_map(v.directives, any_directive()) + "\n"@
}

/// A name as it stands.
pub open spec fn plain_name() -> spec_fn(Seq<char>) -> Seq<char> {
    |n: Seq<char>| n
}

/// The word that starts the definition of a type of the given kind.
pub open spec fn keyword(kind: TypeKind) -> Seq<char> {
    match kind {
        TypeKind::Scalar => "scalar"@,
        TypeKind::Object => "type"@,
        TypeKind::Interface => "interface"@,
        TypeKind::Union => "union"@,
        TypeKind::Enum => "enum"@,
        TypeKind::InputObject => "input"@,
    }
}

/// A list after a lead, or nothing where the list is empty.
pub open spec fn led(lead: Seq<char>, count: nat, inner: Seq<char>) -> Seq<char> {
    if count == 0 {
        Seq::empty()
    } else {
        lead + inner
    }
}

/// Lines between braces.
pub open spec fn block(lines: Seq<char>) -> Seq<char> {
    " {\n"@ + lines + "}"@
}

/// The content of a type definition, after its name and directives.
pub open spec fn body_text(t: TypeDefinitionView) -> Seq<char> {
    match t.kind {
        TypeKind::Scalar => Seq::empty(),
        TypeKind::Object | TypeKind::Interface => block(concat_map(t.fields, field_text())),
        TypeKind::Union => led(
            " = "@,
            t.members.len(),
            join_map(t.members, plain_name(), " | "@),
        ),
        TypeKind::Enum => block(concat_map(t.values, enum_value_text())),
        TypeKind::InputObject => block(concat_map(t.input_fields, input_field_text())),
    }
}

/// The directive applications that sit on an extension.
pub open spec fn on_extension() -> spec_fn(DirectiveView) -> bool {
    |d: DirectiveView| d.extension
}

/// The directive applications that sit on a definition.
pub open spec fn on_definition() -> spec_fn(DirectiveView) -> bool {
    |d: DirectiveView| !d.extension
}

/// Whether some directive application sits on an extension.
pub open spec fn has_extension(directives: Seq<DirectiveView>) -> bool {
    first_where(directives, on_extension()).is_some()
}

/// The extension of an element that carries the directive applications made
/// on extensions, or nothing where there is none.
pub open spec fn extension_text(head: Seq<char>, directives: Seq<DirectiveView>) -> Seq<char> {
    if has_extension(directives) {
        "extend "@ + head + concat_map(directives, directive_on(true)) + "\n"@
    } else {
        Seq::empty()
    }
}

/// A type definition: its kind, name, interfaces, directives and content,
/// then its extension where directives were applied on one.
pub open spec fn definition_text() -> spec_fn(TypeDefinitionView) -> Seq<char> {
    |t: TypeDefinitionView|
        keyword(t.kind) + " "@ + t.name + led(
            " implements "@,
            t.implements.len(),
            join_map(t.implements, plain_name(), " & "@),
        ) + concat_map(t.directives, directive_on(false)) + body_text(t) + "\n"@ + extension_text(
            keyword(t.kind) + " "@ + t.name,
            t.directives,
        )
}

/// The name of a directive location.
pub open spec fn location_name(l: DirectiveLocation) -> Seq<char> {
    match l {
        DirectiveLocation::Query => "QUERY"@,
        DirectiveLocation::Mutation => "MUTATION"@,
        DirectiveLocation::Subscription => "SUBSCRIPTION"@,
        DirectiveLocation::Field => "FIELD"@,
        DirectiveLocation::FragmentDefinition => "FRAGMENT_DEFINITION"@,
        DirectiveLocation::FragmentSpread => "FRAGMENT_SPREAD"@,
        DirectiveLocation::InlineFragment => "INLINE_FRAGMENT"@,
        DirectiveLocation::VariableDefinition => "VARIABLE_DEFINITION"@,
        DirectiveLocation::Schema => "SCHEMA"@,
        DirectiveLocation::Scalar => "SCALAR"@,
        DirectiveLocation::Object => "OBJECT"@,
        DirectiveLocation::FieldDefinition => "FIELD_DEFINITION"@,
        DirectiveLocation::ArgumentDefinition => "ARGUMENT_DEFINITION"@,
        DirectiveLocation::Interface => "INTERFACE"@,
        DirectiveLocation::Union => "UNION"@,
        DirectiveLocation::Enum => "ENUM"@,
        DirectiveLocation::EnumValue => "ENUM_VALUE"@,
        DirectiveLocation::InputObject => "INPUT_OBJECT"@,
        DirectiveLocation::InputFieldDefinition => "INPUT_FIELD_DEFINITION"@,
    }
}

/// The writing of directive locations.
pub open spec fn location_text() -> spec_fn(DirectiveLocation) -> Seq<char> {
    |l: DirectiveLocation| location_name(l)
}

/// The word `repeatable`, where the flag is set.
pub open spec fn repeatable_text(repeatable: bool) -> Seq<char> {
    if repeatable {
        " repeatable"@
    } else {
        Seq::empty()
    }
}

/// A directive definition, on a line of its own.
pub open spec fn directive_definition_text() -> spec_fn(DirectiveDefinitionView) -> Seq<char> {
    |d: DirectiveDefinitionView|
        "directive @"@ + d.name + arguments_text(d.arguments) + repeatable_text(d.repeatable)
            + " on "@ + join_map(d.locations, location_text(), " | "@) + "\n"@
}

/// A root operation of the schema definition, on a line of its own.
pub open spec fn root_text(operation: Seq<char>, root: Option<Seq<char>>) -> Seq<char> {
    match root {
        Some(name) => "  "@ + operation + ": "@ + name + "\n"@,
        None => Seq::empty(),
    }
}

/// Whether the schema has a definition of its own to write: a root operation
/// or a directive applied to the definition.
pub open spec fn has_schema_definition(s: SchemaView) -> bool {
    s.query_type.is_some() || s.mutation_type.is_some() || s.subscription_type.is_some()
        || first_where(s.directives, on_definition()).is_some()
}

/// The schema definition: its directives and its root operations.
pub open spec fn schema_definition_text(s: SchemaView) -> Seq<char> {
    "schema"@ + concat_map(s.directives, directive_on(false)) + block(
        root_text("query"@, s.query_type) + root_text("mutation"@, s.mutation_type) + root_text(
            "subscription"@,
            s.subscription_type,
        ),
    ) + "\n"@
}

/// The schema definition, where the schema has one to write, and its
/// extension.
pub open spec fn schema_head_text(s: SchemaView) -> Seq<char> {
    (if has_schema_definition(s) {
        schema_definition_text(s)
    } else {
        Seq::empty()
    }) + extension_text("schema"@, s.directives)
}

impl SchemaView {
    /// The schema as a GraphQL document: the schema definition and its
    /// extension, then the types, then the directive definitions.
    pub open spec fn sdl(self) -> Seq<char> {
        schema_head_text(self) + concat_map(self.types, definition_text()) + concat_map(
            self.directive_definitions,
            directive_definition_text(),
        )
    }
}

/// Appends a type expression.
pub fn write_type(out: &mut String, t: &TypeRef)
    ensures
        final(out)@ == old(out)@ + type_text(t@),
{
    let n = t.lists.len();
    let mut i: usize = 0;
    while i < n
        invariant
            i <= n,
            n == t.lists.len(),
            out@ == old(out)@ + openers(i as nat),
        decreases n - i,
    {
        out.append("[");
        assert(out@ =~= old(out)@ + openers((i + 1) as nat));
        i += 1;
    }
    out.append(t.name.as_str());
    if t.non_null {
        out.append("!");
    }
    let ghost base = old(out)@ + openers(n as nat) + t.name@ + bang(t.non_null);
    assert(out@ =~= base);
    let mut k: usize = n;
    assert(t.lists@.skip(n as int) =~= Seq::<bool>::empty());
    while k > 0
        invariant
            k <= n,
            n == t.lists.len(),
            out@ == base + closers(t.lists@.skip(k as int)),
        decreases k,
    {
        k -= 1;
        out.append("]");
        if t.lists[k] {
            out.append("!");
        }
        assert(t.lists@.skip(k as int).drop_first() =~= t.lists@.skip(k + 1));
        assert(out@ =~= base + closers(t.lists@.skip(k as int)));
    }
    assert(t.lists@.skip(0) =~= t.lists@);
    assert(out@ =~= old(out)@ + type_text(t@));
}

/// Appends a string between double quotes.
pub fn write_quoted(out: &mut String, s: &str)
    ensures
        final(out)@ == old(out)@ + quoted(s@),
{
    out.append("\"");
    let n = s.unicode_len();
    let ghost base = old(out)@ + "\""@;
    let mut i: usize = 0;
    assert(s@.take(0) =~= Seq::<char>::empty());
    assert(out@ =~= base + concat_map(s@.take(0), escaping()));
    while i < n
        invariant
            i <= n,
            n == s@.len(),
            out@ == base + concat_map(s@.take(i as int), escaping()),
        decreases n - i,
    {
        let c = s.get_char(i);
        proof {
            lemma_concat_map_next(s@, escaping(), i as int);
        }
        if c == '"' {
            out.append("\\\"");
        } else if c == '\\' {
            out.append("\\\\");
        } else if c == '\n' {
            out.append("\\n");
        } else if c == '\r' {
            out.append("\\r");
        } else if c == '\t' {
            out.append("\\t");
        } else {
            let piece = s.substring_char(i, i + 1);
            assert(piece@ =~= seq![c]);
            out.append(piece);
        }
        assert(out@ =~= base + concat_map(s@.take(i + 1), escaping()));
        i += 1;
    }
    assert(s@.take(n as int) =~= s@);
    out.append("\"");
    assert(out@ =~= old(out)@ + quoted(s@));
}

/// Appends the value of an argument.
pub fn write_value(out: &mut String, v: &ArgValue)
    ensures
        final(out)@ == old(out)@ + value_text(v@),
{
    match v {
        ArgValue::Str(s) => write_quoted(out, s.as_str()),
        ArgValue::Bool(b) => {
            if *b {
                out.append("true");
            } else {
                out.append("false");
            }
        },
        ArgValue::Enum(s) => out.append(s.as_str()),
        ArgValue::Other(s) => out.append(s.as_str()),
    }
}

/// Appends a directive application.
pub fn write_directive(out: &mut String, d: &Directive)
    ensures
        final(out)@ == old(out)@ + directive_text(d@),
{
    out.append(" @");
    out.append(d.name.as_str());
    let n = d.arguments.len();
    if n > 0 {
        out.append("(");
        let ghost base = old(out)@ + " @"@ + d.name@ + "("@;
        let ghost all = d@.arguments;
        assert(out@ =~= base);
        assert(all.take(0) =~= Seq::<ArgumentView>::empty());
        let mut i: usize = 0;
        while i < n
            invariant
                i <= n,
                n == d.arguments.len(),
                all == d@.arguments,
                out@ == base + join_map(all.take(i as int), argument_text(), ", "@),
            decreases n - i,
        {
            proof {
                lemma_join_map_next(all, argument_text(), ", "@, i as int);
            }
            if i > 0 {
                out.append(", ");
            }
            out.append(d.arguments[i].name.as_str());
            out.append(": ");
            write_value(out, &d.arguments[i].value);
            assert(out@ =~= base + join_map(all.take(i + 1), argument_text(), ", "@));
            i += 1;
        }
        assert(all.take(n as int) =~= all);
        out.append(")");
    }
    assert(out@ =~= old(out)@ + directive_text(d@));
}

/// Appends every directive application of `directives`.
pub fn write_directives(out: &mut String, directives: &Vec<Directive>)
    ensures
        final(out)@ == old(out)@ + concat_map(directives.deep_view(), any_directive()),
{
    let ghost all = directives.deep_view();
    assert(all.take(0) =~= Seq::<DirectiveView>::empty());
    assert(out@ =~= old(out)@ + concat_map(all.take(0), any_directive()));
    let mut i: usize = 0;
    while i < directives.len()
        invariant
            i <= directives.len(),
            all == directives.deep_view(),
            out@ == old(out)@ + concat_map(all.take(i as int), any_directive()),
        decreases directives.len() - i,
    {
        proof {
            lemma_concat_map_next(all, any_directive(), i as int);
        }
        write_directive(out, &directives[i]);
        assert(out@ =~= old(out)@ + concat_map(all.take(i + 1), any_directive()));
        i += 1;
    }
    assert(all.take(directives.len() as int) =~= all);
}

/// Appends the directive applications of `directives` that sit on an
/// extension, or those that do not.
pub fn write_directives_on(out: &mut String, directives: &Vec<Directive>, extension: bool)
    ensures
        final(out)@ == old(out)@ + concat_map(directives.deep_view(), directive_on(extension)),
{
    let ghost all = directives.deep_view();
    assert(all.take(0) =~= Seq::<DirectiveView>::empty());
    assert(out@ =~= old(out)@ + concat_map(all.take(0), directive_on(extension)));
    let mut i: usize = 0;
    while i < directives.len()
        invariant
            i <= directives.len(),
            all == directives.deep_view(),
            out@ == old(out)@ + concat_map(all.take(i as int), directive_on(extension)),
        decreases directives.len() - i,
    {
        proof {
            lemma_concat_map_next(all, directive_on(extension), i as int);
        }
        if directives[i].extension == extension {
            write_directive(out, &directives[i]);
        }
        assert(out@ =~= old(out)@ + concat_map(all.take(i + 1), directive_on(extension)));
        i += 1;
    }
    assert(all.take(directives.len() as int) =~= all);
}

/// Appends an input value.
pub fn write_input(out: &mut String, v: &InputValue)
    ensures
        final(out)@ == old(out)@ + input_text()(v@),
{
    out.append(v.name.as_str());
    out.append(": ");
    write_type(out, &v.ty);
    match &v.default_value {
        Some(t) => {
            out.append(" = ");
            out.append(t.as_str());
        },
        None => {},
    }
    assert(out@ =~= old(out)@ + v@.name + ": "@ + type_text(v@.ty) + default_text(
        v@.default_value,
    ));
    write_directives(out, &v.directives);
    assert(out@ =~= old(out)@ + input_text()(v@));
}

/// Appends the arguments of a field or of a directive definition.
pub fn write_arguments(out: &mut String, arguments: &Vec<InputValue>)
    ensures
        final(out)@ == old(out)@ + arguments_text(arguments.deep_view()),
{
    let n = arguments.len();
    if n > 0 {
        out.append("(");
        let ghost base = old(out)@ + "("@;
        let ghost all = arguments.deep_view();
        assert(all.take(0) =~= Seq::<InputValueView>::empty());
        let mut i: usize = 0;
        while i < n
            invariant
                i <= n,
                n == arguments.len(),
                all == arguments.deep_view(),
                out@ == base + join_map(all.take(i as int), input_text(), ", "@),
            decreases n - i,
        {
            proof {
                lemma_join_map_next(all, input_text(), ", "@, i as int);
            }
            if i > 0 {
                out.append(", ");
            }
            write_input(out, &arguments[i]);
            assert(out@ =~= base + join_map(all.take(i + 1), input_text(), ", "@));
            i += 1;
        }
        assert(all.take(n as int) =~= all);
        out.append(")");
    }
    assert(out@ =~= old(out)@ + arguments_text(arguments.deep_view()));
}

/// Appends names with `sep` between each and the next.
pub fn write_names(out: &mut String, names: &Vec<String>, sep: &str)
    ensures
        final(out)@ == old(out)@ + join_map(names.deep_view(), plain_name(), sep@),
{
    let ghost all = names.deep_view();
    assert(all.take(0) =~= Seq::<Seq<char>>::empty());
    assert(out@ =~= old(out)@ + join_map(all.take(0), plain_name(), sep@));
    let mut i: usize = 0;
    while i < names.len()
        invariant
            i <= names.len(),
            all == names.deep_view(),
            out@ == old(out)@ + join_map(all.take(i as int), plain_name(), sep@),
        decreases names.len() - i,
    {
        proof {
            lemma_join_map_next(all, plain_name(), sep@, i as int);
        }
        if i > 0 {
            out.append(sep);
        }
        out.append(names[i].as_str());
        assert(out@ =~= old(out)@ + join_map(all.take(i + 1), plain_name(), sep@));
        i += 1;
    }
    assert(all.take(names.len() as int) =~= all);
}

/// Appends a field, on a line of its own.
pub fn write_field(out: &mut String, f: &Field)
    ensures
        final(out)@ == old(out)@ + field_text()(f@),
{
    out.append("  ");
    out.append(f.name.as_str());
    write_arguments(out, &f.arguments);
    out.append(": ");
    let ghost s1 = out@;
    assert(s1 =~= old(out)@ + ("  "@ + f@.name + arguments_text(f@.arguments) + ": "@));
    write_type(out, &f.ty);
    write_directives(out, &f.directives);
    out.append("\n");
    assert(out@ =~= s1 + (type_text(f@.ty) + concat_map(f@.directives, any_directive()) + "\n"@));
    assert(out@ =~= old(out)@ + field_text()(f@));
}

/// Appends an input field, on a line of its own.
pub fn write_input_field(out: &mut String, v: &InputValue)
    ensures
        final(out)@ == old(out)@ + input_field_text()(v@),
{
    out.append("  ");
    write_input(out, v);
    out.append("\n");
    assert(out@ =~= old(out)@ + input_field_text()(v@));
}

/// Appends an enum value, on a line of its own.
pub fn write_enum_value(out: &mut String, v: &EnumValue)
    ensures
        final(out)@ == old(out)@ + enum_value_text()(v@),
{
    out.append("  ");
    out.append(v.name.as_str());
    write_directives(out, &v.directives);
    out.append("\n");
    assert(out@ =~= old(out)@ + enum_value_text()(v@));
}

/// Appends the fields of an object or interface, one per line.
pub fn write_fields(out: &mut String, fields: &Vec<Field>)
    ensures
        final(out)@ == old(out)@ + concat_map(fields.deep_view(), field_text()),
{
    let ghost all = fields.deep_view();
    assert(all.take(0) =~= Seq::<FieldView>::empty());
    assert(out@ =~= old(out)@ + concat_map(all.take(0), field_text()));
    let mut i: usize = 0;
    while i < fields.len()
        invariant
            i <= fields.len(),
            all == fields.deep_view(),
            out@ == old(out)@ + concat_map(all.take(i as int), field_text()),
        decreases fields.len() - i,
    {
        proof {
            lemma_concat_map_next(all, field_text(), i as int);
        }
        write_field(out, &fields[i]);
        assert(out@ =~= old(out)@ + concat_map(all.take(i + 1), field_text()));
        i += 1;
    }
    assert(all.take(fields.len() as int) =~= all);
}

/// Appends the fields of an input object, one per line.
pub fn write_input_fields(out: &mut String, fields: &Vec<InputValue>)
    ensures
        final(out)@ == old(out)@ + concat_map(fields.deep_view(), input_field_text()),
{
    let ghost all = fields.deep_view();
    assert(all.take(0) =~= Seq::<InputValueView>::empty());
    assert(out@ =~= old(out)@ + concat_map(all.take(0), input_field_text()));
    let mut i: usize = 0;
    while i < fields.len()
        invariant
            i <= fields.len(),
            all == fields.deep_view(),
            out@ == old(out)@ + concat_map(all.take(i as int), input_field_text()),
        decreases fields.len() - i,
    {
        proof {
            lemma_concat_map_next(all, input_field_text(), i as int);
        }
        write_input_field(out, &fields[i]);
        assert(out@ =~= old(out)@ + concat_map(all.take(i + 1), input_field_text()));
        i += 1;
    }
    assert(all.take(fields.len() as int) =~= all);
}

/// Appends the values of an enum, one per line.
pub fn write_enum_values(out: &mut String, values: &Vec<EnumValue>)
    ensures
        final(out)@ == old(out)@ + concat_map(values.deep_view(), enum_value_text()),
{
    let ghost all = values.deep_view();
    assert(all.take(0) =~= Seq::<EnumValueView>::empty());
    assert(out@ =~= old(out)@ + concat_map(all.take(0), enum_value_text()));
    let mut i: usize = 0;
    while i < values.len()
        invariant
            i <= values.len(),
            all == values.deep_view(),
            out@ == old(out)@ + concat_map(all.take(i as int), enum_value_text()),
        decreases values.len() - i,
    {
        proof {
            lemma_concat_map_next(all, enum_value_text(), i as int);
        }
        write_enum_value(out, &values[i]);
        assert(out@ =~= old(out)@ + concat_map(all.take(i + 1), enum_value_text()));
        i += 1;
    }
    assert(all.take(values.len() as int) =~= all);
}

/// The word that starts the definition of a type of the given kind.
pub fn keyword_of(kind: TypeKind) -> (r: &'static str)
    ensures
        r@ == keyword(kind),
{
    match kind {
        TypeKind::Scalar => "scalar",
        TypeKind::Object => "type",
        TypeKind::Interface => "interface",
        TypeKind::Union => "union",
        TypeKind::Enum => "enum",
        TypeKind::InputObject => "input",
    }
}

/// Whether some directive application sits on an extension, where
/// `extension` is set, or on a definition, where it is not.
fn some_directive_on(directives: &Vec<Directive>, extension: bool) -> (r: bool)
    ensures
        extension ==> r == first_where(directives.deep_view(), on_extension()).is_some(),
        !extension ==> r == first_where(directives.deep_view(), on_definition()).is_some(),
{
    let ghost all = directives.deep_view();
    let mut i: usize = 0;
    while i < directives.len()
        invariant
            i <= directives.len(),
            all == directives.deep_view(),
            forall|j: int| 0 <= j < i ==> (#[trigger] all[j]).extension != extension,
        decreases directives.len() - i,
    {
        if directives[i].extension == extension {
            proof {
                if extension {
                    lemma_first_where_is(all, on_extension(), i as int);
                } else {
                    lemma_first_where_is(all, on_definition(), i as int);
                }
            }
            return true;
        }
        i += 1;
    }
    proof {
        if extension {
            lemma_first_where_none(all, on_extension());
        } else {
            lemma_first_where_none(all, on_definition());
        }
    }
    false
}

/// Appends the extension that carries the directive applications made on
/// extensions.
fn write_extension(out: &mut String, head: &str, directives: &Vec<Directive>)
    ensures
        final(out)@ == old(out)@ + extension_text(head@, directives.deep_view()),
{
    if some_directive_on(directives, true) {
        out.append("extend ");
        out.append(head);
        write_directives_on(out, directives, true);
        out.append("\n");
    }
    assert(out@ =~= old(out)@ + extension_text(head@, directives.deep_view()));
}

/// Appends the content of a type definition.
fn write_body(out: &mut String, t: &TypeDefinition)
    ensures
        final(out)@ == old(out)@ + body_text(t@),
{
    match t.kind {
        TypeKind::Scalar => {},
        TypeKind::Object | TypeKind::Interface => {
            out.append(" {\n");
            write_fields(out, &t.fields);
            out.append("}");
        },
        TypeKind::Union => {
            if t.members.len() > 0 {
                out.append(" = ");
                write_names(out, &t.members, " | ");
            }
        },
        TypeKind::Enum => {
            out.append(" {\n");
            write_enum_values(out, &t.values);
            out.append("}");
        },
        TypeKind::InputObject => {
            out.append(" {\n");
            write_input_fields(out, &t.input_fields);
            out.append("}");
        },
    }
    assert(out@ =~= old(out)@ + body_text(t@));
}

/// Appends a type definition.
pub fn write_definition(out: &mut String, t: &TypeDefinition)
    ensures
        final(out)@ == old(out)@ + definition_text()(t@),
{
    let word = keyword_of(t.kind);
    let mut head = String::from_str(word);
    head.append(" ");
    head.append(t.name.as_str());
    out.append(head.as_str());
    if t.implements.len() > 0 {
        out.append(" implements ");
        write_names(out, &t.implements, " & ");
    }
    write_directives_on(out, &t.directives, false);
    write_body(out, t);
    out.append("\n");
    write_extension(out, head.as_str(), &t.directives);
    assert(out@ =~= old(out)@ + definition_text()(t@));
}

/// The name of a directive location.
pub fn location_name_of(l: DirectiveLocation) -> (r: &'static str)
    ensures
        r@ == location_name(l),
{
    match l {
        DirectiveLocation::Query => "QUERY",
        DirectiveLocation::Mutation => "MUTATION",
        DirectiveLocation::Subscription => "SUBSCRIPTION",
        DirectiveLocation::Field => "FIELD",
        DirectiveLocation::FragmentDefinition => "FRAGMENT_DEFINITION",
        DirectiveLocation::FragmentSpread => "FRAGMENT_SPREAD",
        DirectiveLocation::InlineFragment => "INLINE_FRAGMENT",
        DirectiveLocation::VariableDefinition => "VARIABLE_DEFINITION",
        DirectiveLocation::Schema => "SCHEMA",
        DirectiveLocation::Scalar => "SCALAR",
        DirectiveLocation::Object => "OBJECT",
        DirectiveLocation::FieldDefinition => "FIELD_DEFINITION",
        DirectiveLocation::ArgumentDefinition => "ARGUMENT_DEFINITION",
        DirectiveLocation::Interface => "INTERFACE",
        DirectiveLocation::Union => "UNION",
        DirectiveLocation::Enum => "ENUM",
        DirectiveLocation::EnumValue => "ENUM_VALUE",
        DirectiveLocation::InputObject => "INPUT_OBJECT",
        DirectiveLocation::InputFieldDefinition => "INPUT_FIELD_DEFINITION",
    }
}

/// Appends a directive definition.
pub fn write_directive_definition(out: &mut String, d: &DirectiveDefinition)
    ensures
        final(out)@ == old(out)@ + directive_definition_text()(d@),
{
    out.append("directive @");
    out.append(d.name.as_str());
    write_arguments(out, &d.arguments);
    if d.repeatable {
        out.append(" repeatable");
    }
    out.append(" on ");
    let ghost base = old(out)@ + "directive @"@ + d@.name + arguments_text(d@.arguments)
        + repeatable_text(d@.repeatable) + " on "@;
    assert(out@ =~= base);
    let ghost all = d@.locations;
    assert(all.take(0) =~= Seq::<DirectiveLocation>::empty());
    let mut i: usize = 0;
    while i < d.locations.len()
        invariant
            i <= d.locations.len(),
            all == d@.locations,
            out@ == base + join_map(all.take(i as int), location_text(), " | "@),
        decreases d.locations.len() - i,
    {
        proof {
            lemma_join_map_next(all, location_text(), " | "@, i as int);
        }
        if i > 0 {
            out.append(" | ");
        }
        out.append(location_name_of(d.locations[i]));
        assert(out@ =~= base + join_map(all.take(i + 1), location_text(), " | "@));
        i += 1;
    }
    assert(all.take(d.locations.len() as int) =~= all);
    out.append("\n");
    assert(out@ =~= old(out)@ + directive_definition_text()(d@));
}

/// Appends a root operation of the schema definition.
fn write_root(out: &mut String, operation: &str, root: &Option<String>)
    ensures
        final(out)@ == old(out)@ + root_text(operation@, root.deep_view()),
{
    match root {
        Some(name) => {
            out.append("  ");
            out.append(operation);
            out.append(": ");
            out.append(name.as_str());
            out.append("\n");
        },
        None => {},
    }
    assert(out@ =~= old(out)@ + root_text(operation@, root.deep_view()));
}

/// Appends the schema definition.
fn write_schema_definition(out: &mut String, s: &Schema)
    ensures
        final(out)@ == old(out)@ + schema_definition_text(s@),
{
    out.append("schema");
    write_directives_on(out, &s.directives, false);
    out.append(" {\n");
    let ghost opened = out@;
    write_root(out, "query", &s.query_type);
    write_root(out, "mutation", &s.mutation_type);
    write_root(out, "subscription", &s.subscription_type);
    assert(out@ =~= opened + (root_text("query"@, s@.query_type) + root_text(
        "mutation"@,
        s@.mutation_type,
    ) + root_text("subscription"@, s@.subscription_type)));
    out.append("}");
    out.append("\n");
    assert(out@ =~= old(out)@ + schema_definition_text(s@));
}

/// Whether the schema has a definition of its own to write.
fn schema_has_definition(s: &Schema) -> (r: bool)
    ensures
        r == has_schema_definition(s@),
{
    s.query_type.is_some() || s.mutation_type.is_some() || s.subscription_type.is_some()
        || some_directive_on(&s.directives, false)
}

/// Appends the schema definition and its extension.
fn write_schema_head(out: &mut String, s: &Schema)
    ensures
        final(out)@ == old(out)@ + schema_head_text(s@),
{
    if schema_has_definition(s) {
        write_schema_definition(out, s);
    }
    write_extension(out, "schema", &s.directives);
    assert(out@ =~= old(out)@ + schema_head_text(s@));
}

impl Schema {
    /// The schema as a GraphQL document.
    pub fn to_sdl(&self) -> (r: String)
        ensures
            r@ == self@.sdl(),
    {
        let mut out = String::new();
        write_schema_head(&mut out, self);
        let ghost head = out@;
        let ghost types = self@.types;
        assert(types.take(0) =~= Seq::<TypeDefinitionView>::empty());
        assert(out@ =~= head + concat_map(types.take(0), definition_text()));
        let mut i: usize = 0;
        while i < self.types.len()
            invariant
                i <= self.types.len(),
                types == self@.types,
                out@ == head + concat_map(types.take(i as int), definition_text()),
            decreases self.types.len() - i,
        {
            proof {
                lemma_concat_map_next(types, definition_text(), i as int);
            }
            write_definition(&mut out, &self.types[i]);
            assert(out@ =~= head + concat_map(types.take(i + 1), definition_text()));
            i += 1;
        }
        assert(types.take(self.types.len() as int) =~= types);
        let ghost middle = out@;
        let ghost definitions = self@.directive_definitions;
        assert(definitions.take(0) =~= Seq::<DirectiveDefinitionView>::empty());
        assert(out@ =~= middle + concat_map(definitions.take(0), directive_definition_text()));
        let mut j: usize = 0;
        while j < self.directive_definitions.len()
            invariant
                j <= self.directive_definitions.len(),
                definitions == self@.directive_definitions,
                out@ == middle + concat_map(definitions.take(j as int), directive_definition_text()),
            decreases self.directive_definitions.len() - j,
        {
            proof {
                lemma_concat_map_next(definitions, directive_definition_text(), j as int);
            }
            write_directive_definition(&mut out, &self.directive_definitions[j]);
            assert(out@ =~= middle + concat_map(
                definitions.take(j + 1),
                directive_definition_text(),
            ));
            j += 1;
        }
        assert(definitions.take(self.directive_definitions.len() as int) =~= definitions);
        assert(head =~= schema_head_text(self@));
        assert(out@ =~= self@.sdl());
        out
    }
}

} // verus!
