//! Scaffolding: the registry seeded with one empty service per value of the
//! graph enumeration, then an empty shell of every supergraph type in each
//! service that owns it.
use crate::closure::{all_closed, lemma_preamble_closed};
use crate::edits::{RootKind, msg_no_type, outcome};
use crate::error::{ErrorView, FederationError, internal, invalid_supergraph};
use crate::federation::{
    interface_object_directive, key_directive, make_interface_object_directive, make_key_directive,
    new_empty_fed_2_subgraph_schema, preamble,
};
use crate::join::{
    JoinSpec, JoinSpecView, TypeArguments, TypeArgumentsView, element_name, element_name_of,
    graph_arguments, read_graph_arguments,
};
use crate::ordered::{GraphNames, OwnerFlags, lookup, put};
use crate::provenance::{applications, applies, first_application, type_applications, type_decoder};
use crate::schema::{
    Directive, DirectiveView, EnumValueView, Schema, SchemaView, TypeDefinitionView, TypeKind,
};
use crate::seqs::{first_where, lemma_deep_view_empty, lemma_deep_view_push, try_fold};
use crate::subgraphs::{
    FederationSubgraph, FederationSubgraphs, SubgraphView, add_subgraph, edit_at, get_subgraph,
    lemma_with_schema, names_of, resolve, with_schema,
};
use crate::kinds::{
    has_type_of, lemma_attach_key_kinds, lemma_shell_for_kind, lemma_shell_for_shelled,
    all_kinds_follow, lemma_follow_shelled, lemma_shelled_all_edit, lemma_shelled_same,
    same_kinds, shell_kind, shelled, shelled_all,
};
use crate::surface::lemma_shell;
use crate::supergraph::{Specs, SpecsView, is_spec_type, required_directive};
use crate::text::{concat3, str_eq};
use vstd::prelude::*;
use vstd::string::*;

verus! {

/// The registry and the lookup from the values of the graph enumeration to
/// the names of the services, as values.
pub struct SeedView {
    pub subgraphs: Seq<SubgraphView>,
    pub names: Seq<(Seq<char>, Seq<char>)>,
}

/// What is said of a supergraph without graph enumeration.
pub open spec fn msg_no_graph_enum() -> Seq<char> {
    "Unexpectedly could not find join spec's \"Graph\" enum in schema"@
}

/// What is said of a value of the graph enumeration that names no service.
pub open spec fn msg_no_graph_directive(value: Seq<char>) -> Seq<char> {
    "Value \""@ + value + "\" of join__Graph enum has no @join__graph directive"@
}

/// The enumeration of contributing services in `supergraph`.
pub open spec fn graph_enum(supergraph: SchemaView, join: JoinSpecView) -> Result<
    TypeDefinitionView,
    ErrorView,
> {
    match supergraph.locate(element_name(join.spec_name, "Graph"@), TypeKind::Enum) {
        Ok(i) => Ok(supergraph.types[i]),
        Err(_) => Err(internal(msg_no_graph_enum())),
    }
}

/// One step of seeding: the value must carry the graph directive, whose
/// arguments name a service; the service enters the registry with the
/// preamble as its schema, and the value is made to stand for its name.
pub open spec fn seed_step(graph_directive: Seq<char>) -> spec_fn(SeedView, EnumValueView) -> Result<
    SeedView,
    ErrorView,
> {
    |seed: SeedView, value: EnumValueView|
        match first_where(value.directives, applies(graph_directive)) {
            None => Err(invalid_supergraph(msg_no_graph_directive(value.name))),
            Some(i) => match graph_arguments(value.directives[i]) {
                Err(e) => Err(e),
                Ok(args) => match add_subgraph(
                    seed.subgraphs,
                    SubgraphView { name: args.name, url: args.url, schema: preamble() },
                ) {
                    Err(e) => Err(e),
                    Ok(subgraphs) => Ok(
                        SeedView { subgraphs, names: put(seed.names, value.name, args.name) },
                    ),
                },
            },
        }
}

/// The registry of empty services that `supergraph` enumerates, and the
/// lookup from enumeration values to service names.
pub open spec fn seed(supergraph: SchemaView, join: JoinSpecView) -> Result<SeedView, ErrorView> {
    match required_directive(supergraph, join, "graph"@) {
        Err(e) => Err(e),
        Ok(graph_directive) => match graph_enum(supergraph, join) {
            Err(e) => Err(e),
            Ok(t) => try_fold(
                t.values,
                0,
                SeedView { subgraphs: Seq::empty(), names: Seq::empty() },
                seed_step(graph_directive),
            ),
        },
    }
}

/// Seeds the registry: one service per value of the graph enumeration, each
/// with the federation preamble as its schema, and the lookup from the
/// enumeration's values to the services' names.
pub fn collect_empty_subgraphs(supergraph: &Schema, join: &JoinSpec) -> (r: Result<
    (FederationSubgraphs, GraphNames),
    FederationError,
>)
    ensures
        match seed(supergraph@, join@) {
            Ok(s) => r is Ok && r->Ok_0.0@ == s.subgraphs && r->Ok_0.1@ == s.names
                && r->Ok_0.0.wf(),
            Err(e) => r is Err && r->Err_0@ == e,
        },
        r matches Ok(seeded) ==> all_closed(seeded.0@),
{
    let graph_directive = join.required_directive(supergraph, "graph")?;
    let enum_name = element_name_of(join.spec_name.as_str(), "Graph");
    let at = match supergraph.locate(enum_name.as_str(), TypeKind::Enum) {
        Ok(i) => i,
        Err(_) => {
            return Err(
                FederationError::internal(
                    String::from_str(
                        "Unexpectedly could not find join spec's \"Graph\" enum in schema",
                    ),
                ),
            );
        },
    };
    let values = &supergraph.types[at].values;
    let ghost all = values.deep_view();
    let ghost step = seed_step(graph_directive@);
    let ghost start = SeedView { subgraphs: Seq::empty(), names: Seq::empty() };
    let mut subgraphs = FederationSubgraphs::new();
    let mut names = GraphNames::new();
    let mut i: usize = 0;
    while i < values.len()
        invariant
            i <= values.len(),
            all == values.deep_view(),
            step == seed_step(graph_directive@),
            seed(supergraph@, join@) == try_fold(all, 0, start, step),
            subgraphs.wf(),
            all_closed(subgraphs@),
            try_fold(all, i as int, SeedView { subgraphs: subgraphs@, names: names@ }, step)
                == try_fold(all, 0, start, step),
        decreases values.len() - i,
    {
        let value = &values[i];
        let application = match first_application(&value.directives, graph_directive.as_str()) {
            None => {
                return Err(
                    FederationError::invalid_supergraph(
                        concat3(
                            "Value \"",
                            value.name.as_str(),
                            "\" of join__Graph enum has no @join__graph directive",
                        ),
                    ),
                );
            },
            Some(k) => &value.directives[k],
        };
        let args = read_graph_arguments(application)?;
        let subgraph = FederationSubgraph {
            name: args.name.clone(),
            url: args.url,
            schema: new_empty_fed_2_subgraph_schema(),
        };
        proof {
            lemma_preamble_closed();
        }
        subgraphs.add(subgraph)?;
        names = names.insert(value.name.clone(), args.name);
        i += 1;
    }
    Ok((subgraphs, names))
}

/// The mathematical value of a `TypeInfo`.
pub struct TypeInfoView {
    pub name: Seq<char>,
    pub owners: Seq<(Seq<char>, bool)>,
}

/// What scaffolding records of one supergraph type: its name, and the
/// services that own it, by their values of the graph enumeration, each with
/// a flag that says whether the service holds the type as an interface
/// object.
pub struct TypeInfo {
    pub name: String,
    pub subgraph_info: OwnerFlags,
}

impl DeepView for TypeInfo {
    type V = TypeInfoView;

    open spec fn deep_view(&self) -> TypeInfoView {
        TypeInfoView { name: self.name@, owners: self.subgraph_info@ }
    }
}

/// The mathematical value of a `TypeInfos`.
pub struct TypeInfosView {
    pub object_types: Seq<TypeInfoView>,
    pub interface_types: Seq<TypeInfoView>,
    pub union_types: Seq<TypeInfoView>,
    pub enum_types: Seq<TypeInfoView>,
    pub input_object_types: Seq<TypeInfoView>,
}

/// The records of scaffolding, by kind of type.
pub struct TypeInfos {
    pub object_types: Vec<TypeInfo>,
    pub interface_types: Vec<TypeInfo>,
    pub union_types: Vec<TypeInfo>,
    pub enum_types: Vec<TypeInfo>,
    pub input_object_types: Vec<TypeInfo>,
}

impl DeepView for TypeInfos {
    type V = TypeInfosView;

    open spec fn deep_view(&self) -> TypeInfosView {
        TypeInfosView {
            object_types: self.object_types.deep_view(),
            interface_types: self.interface_types.deep_view(),
            union_types: self.union_types.deep_view(),
            enum_types: self.enum_types.deep_view(),
            input_object_types: self.input_object_types.deep_view(),
        }
    }
}

impl TypeInfosView {
    /// No record.
    pub open spec fn empty() -> TypeInfosView {
        TypeInfosView {
            object_types: Seq::empty(),
            interface_types: Seq::empty(),
            union_types: Seq::empty(),
            enum_types: Seq::empty(),
            input_object_types: Seq::empty(),
        }
    }

    /// The records with `info` added to those of `kind`. Scalars are not
    /// recorded.
    pub open spec fn with(self, kind: TypeKind, info: TypeInfoView) -> TypeInfosView {
        match kind {
            TypeKind::Scalar => self,
            TypeKind::Object => TypeInfosView {
                object_types: self.object_types.push(info),
                ..self
            },
            TypeKind::Interface => TypeInfosView {
                interface_types: self.interface_types.push(info),
                ..self
            },
            TypeKind::Union => TypeInfosView { union_types: self.union_types.push(info), ..self },
            TypeKind::Enum => TypeInfosView { enum_types: self.enum_types.push(info), ..self },
            TypeKind::InputObject => TypeInfosView {
                input_object_types: self.input_object_types.push(info),
                ..self
            },
        }
    }
}

/// What is said of a supergraph type without type-level application.
pub open spec fn msg_missing_join_type(name: Seq<char>) -> Seq<char> {
    "Missing @join__type on \""@ + name + "\""@
}

/// What is said where a scalar is scaffolded as a type with content.
pub open spec fn msg_scalar_shell() -> Seq<char> {
    "\"add_empty_type()\" shouldn't be called for scalars"@
}

/// The root operation that an object type serves by its name alone.
pub open spec fn root_kind_of(name: Seq<char>) -> Option<RootKind> {
    if name == "Query"@ {
        Some(RootKind::Query)
    } else if name == "Mutation"@ {
        Some(RootKind::Mutation)
    } else if name == "Subscription"@ {
        Some(RootKind::Subscription)
    } else {
        None
    }
}

impl SchemaView {
    /// The schema with the empty shell of a supergraph type of kind `kind`.
    /// An interface that the service holds as an interface object gets an
    /// object shell that carries the marker directive. An object shell named
    /// after a root operation serves that operation where nothing serves it
    /// yet.
    pub open spec fn insert_shell_for(
        self,
        name: Seq<char>,
        kind: TypeKind,
        is_interface_object: bool,
    ) -> Result<SchemaView, ErrorView> {
        match kind {
            TypeKind::Scalar => Err(internal(msg_scalar_shell())),
            TypeKind::Object => match self.insert_shell(name, TypeKind::Object, Seq::empty()) {
                Err(e) => Err(e),
                Ok(s) => match root_kind_of(name) {
                    Some(root) => if s.root(root).is_none() {
                        s.insert_root(root, name)
                    } else {
                        Ok(s)
                    },
                    None => Ok(s),
                },
            },
            TypeKind::Interface => if is_interface_object {
                self.insert_shell(name, TypeKind::Object, seq![interface_object_directive()])
            } else {
                self.insert_shell(name, TypeKind::Interface, Seq::empty())
            },
            _ => self.insert_shell(name, kind, Seq::empty()),
        }
    }

    /// The schema with the key of the application `app`, where it has one,
    /// attached to the type `name`.
    pub open spec fn attach_key(self, name: Seq<char>, app: TypeArgumentsView) -> Result<
        SchemaView,
        ErrorView,
    > {
        match app.key {
            None => Ok(self),
            Some(key) => match self.type_index(name) {
                None => Err(internal(msg_no_type(name))),
                Some(i) => if self.types[i].kind == TypeKind::Scalar {
                    Err(internal(msg_scalar_shell()))
                } else {
                    self.insert_type_directive(
                        name,
                        key_directive(key, app.resolvable, app.extension),
                    )
                },
            },
        }
    }
}

/// The root operation that an object type serves by its name alone.
fn root_kind_for(name: &str) -> (r: Option<RootKind>)
    ensures
        r == root_kind_of(name@),
{
    if str_eq(name, "Query") {
        Some(RootKind::Query)
    } else if str_eq(name, "Mutation") {
        Some(RootKind::Mutation)
    } else if str_eq(name, "Subscription") {
        Some(RootKind::Subscription)
    } else {
        None
    }
}

/// No directive.
pub fn no_directives() -> (r: Vec<Directive>)
    ensures
        r.deep_view() == Seq::<DirectiveView>::empty(),
{
    let r: Vec<Directive> = Vec::new();
    proof {
        lemma_deep_view_empty(r);
    }
    r
}

impl Schema {
    /// Adds the empty shell of a supergraph type of kind `kind`.
    pub fn insert_shell_for(&mut self, name: &str, kind: TypeKind, is_interface_object: bool) -> (r:
        Result<(), FederationError>)
        ensures
            outcome(r, final(self)@, old(self)@.insert_shell_for(name@, kind, is_interface_object)),
            r is Err ==> final(self)@ == old(self)@,
            r is Ok ==> has_type_of(final(self)@, name@, shell_kind(kind, is_interface_object)),
            shelled(old(self)@, final(self)@, name@, kind),
            old(self)@.closed() && r is Ok ==> final(self)@.closed(),
    {
        proof {
            lemma_shell_for_kind(self@, name@, kind, is_interface_object);
            lemma_shell_for_shelled(self@, name@, kind, is_interface_object);
        }
        match kind {
            TypeKind::Scalar => Err(
                FederationError::internal(
                    String::from_str("\"add_empty_type()\" shouldn't be called for scalars"),
                ),
            ),
            TypeKind::Object => {
                self.insert_shell(name, TypeKind::Object, no_directives())?;
                proof {
                    lemma_shell(old(self)@, name@, TypeKind::Object, Seq::empty(), name@);
                }
                match root_kind_for(name) {
                    Some(root) => {
                        if self.root(root).is_none() {
                            self.insert_root(root, name)
                        } else {
                            Ok(())
                        }
                    },
                    None => Ok(()),
                }
            },
            TypeKind::Interface => {
                if is_interface_object {
                    let d = make_interface_object_directive();
                    let directives = vec![d];
                    assert(directives.deep_view() =~= seq![interface_object_directive()]);
                    self.insert_shell(name, TypeKind::Object, directives)
                } else {
                    self.insert_shell(name, TypeKind::Interface, no_directives())
                }
            },
            _ => self.insert_shell(name, kind, no_directives()),
        }
    }

    /// Attaches the key of the application `app`, where it has one, to the
    /// type `name`.
    pub fn attach_key(&mut self, name: &str, app: &TypeArguments) -> (r: Result<
        (),
        FederationError,
    >)
        ensures
            outcome(r, final(self)@, old(self)@.attach_key(name@, app.deep_view())),
            r is Err ==> final(self)@ == old(self)@,
            same_kinds(old(self)@, final(self)@),
            old(self)@.closed() && r is Ok ==> final(self)@.closed(),
    {
        proof {
            lemma_attach_key_kinds(self@, name@, app.deep_view());
        }
        match &app.key {
            None => Ok(()),
            Some(key) => match self.find_type(name) {
                None => Err(
                    FederationError::internal(concat3("Schema has no type \"", name, "\"")),
                ),
                Some(i) => {
                    if self.types[i].kind == TypeKind::Scalar {
                        Err(
                            FederationError::internal(
                                String::from_str(
                                    "\"add_empty_type()\" shouldn't be called for scalars",
                                ),
                            ),
                        )
                    } else {
                        self.insert_type_directive(
                            name,
                            make_key_directive(key.as_str(), app.resolvable, app.extension),
                        )
                    }
                },
            },
        }
    }
}

/// The registry and the owners of the type being scaffolded, as values.
pub struct ShellView {
    pub subgraphs: Seq<SubgraphView>,
    pub owners: Seq<(Seq<char>, bool)>,
}

/// One step of scaffolding a type: the service that the application names
/// gets the shell, unless an earlier application named it, and then the key of
/// the application.
pub open spec fn shell_step(
    names: Seq<(Seq<char>, Seq<char>)>,
    name: Seq<char>,
    kind: TypeKind,
) -> spec_fn(ShellView, TypeArgumentsView) -> Result<ShellView, ErrorView> {
    |st: ShellView, app: TypeArgumentsView|
        match resolve(names, st.subgraphs, app.graph) {
            Err(e) => Err(e),
            Ok(i) => {
                let schema = st.subgraphs[i].schema;
                let known = lookup(st.owners, app.graph).is_some();
                let is_interface_object = kind == TypeKind::Interface && app.is_interface_object;
                let shelled = if known {
                    Ok(schema)
                } else {
                    schema.insert_shell_for(name, kind, is_interface_object)
                };
                match shelled {
                    Err(e) => Err(e),
                    Ok(s1) => match s1.attach_key(name, app) {
                        Err(e) => Err(e),
                        Ok(s2) => Ok(
                            ShellView {
                                subgraphs: with_schema(st.subgraphs, i, s2),
                                owners: if known {
                                    st.owners
                                } else {
                                    put(st.owners, app.graph, is_interface_object)
                                },
                            },
                        ),
                    },
                }
            },
        }
}

/// The registry after the type `name` of kind `kind` has been scaffolded from
/// its type-level applications, and the owners of the type. A type without
/// application is malformed input.
pub open spec fn add_empty_type_spec(
    names: Seq<(Seq<char>, Seq<char>)>,
    subgraphs: Seq<SubgraphView>,
    name: Seq<char>,
    kind: TypeKind,
    apps: Seq<TypeArgumentsView>,
) -> Result<ShellView, ErrorView> {
    if apps.len() == 0 {
        Err(invalid_supergraph(msg_missing_join_type(name)))
    } else {
        try_fold(apps, 0, ShellView { subgraphs, owners: Seq::empty() }, shell_step(names, name, kind))
    }
}

/// Scaffolds one type that is no scalar: creates its empty shell in each
/// service that a type-level application names, attaches the keys, and
/// returns the record of its owners.
pub fn add_empty_type(
    name: &str,
    kind: TypeKind,
    apps: &Vec<TypeArguments>,
    subgraphs: &mut FederationSubgraphs,
    names: &GraphNames,
) -> (r: Result<TypeInfo, FederationError>)
    ensures
        match add_empty_type_spec(names@, old(subgraphs)@, name@, kind, apps.deep_view()) {
            Ok(st) => r is Ok && final(subgraphs)@ == st.subgraphs && r->Ok_0.deep_view()
                == (TypeInfoView { name: name@, owners: st.owners }),
            Err(e) => r is Err && r->Err_0@ == e,
        },
        names_of(final(subgraphs)@) == names_of(old(subgraphs)@),
        r is Ok ==> shelled_all(old(subgraphs)@, final(subgraphs)@, name@, kind),
        all_closed(old(subgraphs)@) && r is Ok ==> all_closed(final(subgraphs)@),
{
    if apps.len() == 0 {
        return Err(
            FederationError::invalid_supergraph(concat3("Missing @join__type on \"", name, "\"")),
        );
    }
    let ghost all = apps.deep_view();
    let ghost step = shell_step(names@, name@, kind);
    let ghost start = ShellView { subgraphs: subgraphs@, owners: Seq::empty() };
    let mut owners = OwnerFlags::new();
    let mut k: usize = 0;
    while k < apps.len()
        invariant
            k <= apps.len(),
            apps.len() > 0,
            all == apps.deep_view(),
            step == shell_step(names@, name@, kind),
            start == (ShellView { subgraphs: old(subgraphs)@, owners: Seq::empty() }),
            names_of(subgraphs@) == names_of(old(subgraphs)@),
            shelled_all(old(subgraphs)@, subgraphs@, name@, kind),
            all_closed(old(subgraphs)@) ==> all_closed(subgraphs@),
            try_fold(all, k as int, ShellView { subgraphs: subgraphs@, owners: owners@ }, step)
                == try_fold(all, 0, start, step),
        decreases apps.len() - k,
    {
        let app = &apps[k];
        let i = get_subgraph(subgraphs, names, app.graph.as_str())?;
        let known = owners.contains_key(app.graph.as_str());
        let is_interface_object = kind == TypeKind::Interface && app.is_interface_object;
        let ghost before = subgraphs.subgraphs;
        if !known {
            subgraphs.subgraphs[i].schema.insert_shell_for(name, kind, is_interface_object)?;
            owners = owners.insert(app.graph.clone(), is_interface_object);
        }
        let ghost shell = subgraphs.subgraphs@[i as int].schema@;
        subgraphs.subgraphs[i].schema.attach_key(name, app)?;
        proof {
            lemma_with_schema(before, subgraphs.subgraphs, i as int);
            lemma_shelled_same(
                before@[i as int].schema@,
                shell,
                subgraphs.subgraphs@[i as int].schema@,
                name@,
                kind,
            );
            lemma_shelled_all_edit(
                old(subgraphs)@,
                before.deep_view(),
                i as int,
                subgraphs.subgraphs@[i as int].schema@,
                name@,
                kind,
            );
        }
        k += 1;
    }
    Ok(TypeInfo { name: String::from_str(name), subgraph_info: owners })
}

/// One step of declaring a scalar: the service that the application names
/// gets the scalar.
pub open spec fn scalar_step(names: Seq<(Seq<char>, Seq<char>)>, name: Seq<char>) -> spec_fn(
    Seq<SubgraphView>,
    TypeArgumentsView,
) -> Result<Seq<SubgraphView>, ErrorView> {
    |subgraphs: Seq<SubgraphView>, app: TypeArgumentsView|
        match resolve(names, subgraphs, app.graph) {
            Err(e) => Err(e),
            Ok(i) => edit_at(
                subgraphs,
                i,
                subgraphs[i].schema.insert_shell(name, TypeKind::Scalar, Seq::empty()),
            ),
        }
}

/// Declares the scalar `name` in each service that a type-level application
/// names.
pub fn add_scalar(
    name: &str,
    apps: &Vec<TypeArguments>,
    subgraphs: &mut FederationSubgraphs,
    names: &GraphNames,
) -> (r: Result<(), FederationError>)
    ensures
        outcome(
            r,
            final(subgraphs)@,
            try_fold(apps.deep_view(), 0, old(subgraphs)@, scalar_step(names@, name@)),
        ),
        names_of(final(subgraphs)@) == names_of(old(subgraphs)@),
        r is Ok ==> shelled_all(old(subgraphs)@, final(subgraphs)@, name@, TypeKind::Scalar),
        all_closed(old(subgraphs)@) && r is Ok ==> all_closed(final(subgraphs)@),
{
    let ghost all = apps.deep_view();
    let ghost step = scalar_step(names@, name@);
    let mut k: usize = 0;
    while k < apps.len()
        invariant
            k <= apps.len(),
            all == apps.deep_view(),
            step == scalar_step(names@, name@),
            names_of(subgraphs@) == names_of(old(subgraphs)@),
            shelled_all(old(subgraphs)@, subgraphs@, name@, TypeKind::Scalar),
            all_closed(old(subgraphs)@) ==> all_closed(subgraphs@),
            try_fold(all, k as int, subgraphs@, step) == try_fold(all, 0, old(subgraphs)@, step),
        decreases apps.len() - k,
    {
        let i = get_subgraph(subgraphs, names, apps[k].graph.as_str())?;
        let ghost before = subgraphs.subgraphs;
        subgraphs.subgraphs[i].schema.insert_shell(name, TypeKind::Scalar, no_directives())?;
        proof {
            lemma_with_schema(before, subgraphs.subgraphs, i as int);
            lemma_shelled_all_edit(
                old(subgraphs)@,
                before.deep_view(),
                i as int,
                subgraphs.subgraphs@[i as int].schema@,
                name@,
                TypeKind::Scalar,
            );
        }
        k += 1;
    }
    Ok(())
}

/// The registry and the records of scaffolding, as values.
pub struct ScaffoldView {
    pub subgraphs: Seq<SubgraphView>,
    pub infos: TypeInfosView,
}

/// One step of scaffolding: a type of the linking or join specification is
/// passed over; a scalar is declared in the services that own it; any other
/// type is scaffolded and recorded under its kind.
pub open spec fn scaffold_step(
    names: Seq<(Seq<char>, Seq<char>)>,
    specs: SpecsView,
    type_directive: Seq<char>,
) -> spec_fn(ScaffoldView, TypeDefinitionView) -> Result<ScaffoldView, ErrorView> {
    |st: ScaffoldView, t: TypeDefinitionView|
        if is_spec_type(specs, t.name) {
            Ok(st)
        } else {
            match applications(t.directives, type_directive, type_decoder()) {
                Err(e) => Err(e),
                Ok(apps) => if t.kind == TypeKind::Scalar {
                    match try_fold(apps, 0, st.subgraphs, scalar_step(names, t.name)) {
                        Err(e) => Err(e),
                        Ok(subgraphs) => Ok(ScaffoldView { subgraphs, ..st }),
                    }
                } else {
                    match add_empty_type_spec(names, st.subgraphs, t.name, t.kind, apps) {
                        Err(e) => Err(e),
                        Ok(sh) => Ok(
                            ScaffoldView {
                                subgraphs: sh.subgraphs,
                                infos: st.infos.with(
                                    t.kind,
                                    TypeInfoView { name: t.name, owners: sh.owners },
                                ),
                            },
                        ),
                    }
                },
            }
        }
}

/// The registry after every type of `supergraph` that belongs to no
/// specification has been scaffolded, and the records of the types by kind.
pub open spec fn scaffold(
    supergraph: SchemaView,
    specs: SpecsView,
    names: Seq<(Seq<char>, Seq<char>)>,
    subgraphs: Seq<SubgraphView>,
) -> Result<ScaffoldView, ErrorView> {
    match required_directive(supergraph, specs.join, "type"@) {
        Err(e) => Err(e),
        Ok(type_directive) => try_fold(
            supergraph.types,
            0,
            ScaffoldView { subgraphs, infos: TypeInfosView::empty() },
            scaffold_step(names, specs, type_directive),
        ),
    }
}

impl TypeInfos {
    /// No record.
    pub fn new() -> (r: TypeInfos)
        ensures
            r.deep_view() == TypeInfosView::empty(),
    {
        let r = TypeInfos {
            object_types: Vec::new(),
            interface_types: Vec::new(),
            union_types: Vec::new(),
            enum_types: Vec::new(),
            input_object_types: Vec::new(),
        };
        proof {
            lemma_deep_view_empty(r.object_types);
            lemma_deep_view_empty(r.interface_types);
            lemma_deep_view_empty(r.union_types);
            lemma_deep_view_empty(r.enum_types);
            lemma_deep_view_empty(r.input_object_types);
        }
        r
    }

    /// Adds `info` to the records of `kind`. Scalars are not recorded.
    pub fn push(&mut self, kind: TypeKind, info: TypeInfo)
        ensures
            final(self).deep_view() == old(self).deep_view().with(kind, info.deep_view()),
    {
        match kind {
            TypeKind::Scalar => {},
            TypeKind::Object => {
                let ghost before = self.object_types;
                self.object_types.push(info);
                proof {
                    lemma_deep_view_push(before, self.object_types, info);
                }
            },
            TypeKind::Interface => {
                let ghost before = self.interface_types;
                self.interface_types.push(info);
                proof {
                    lemma_deep_view_push(before, self.interface_types, info);
                }
            },
            TypeKind::Union => {
                let ghost before = self.union_types;
                self.union_types.push(info);
                proof {
                    lemma_deep_view_push(before, self.union_types, info);
                }
            },
            TypeKind::Enum => {
                let ghost before = self.enum_types;
                self.enum_types.push(info);
                proof {
                    lemma_deep_view_push(before, self.enum_types, info);
                }
            },
            TypeKind::InputObject => {
                let ghost before = self.input_object_types;
                self.input_object_types.push(info);
                proof {
                    lemma_deep_view_push(before, self.input_object_types, info);
                }
            },
        }
    }
}

/// Scaffolds every type of `supergraph` that belongs to no specification, and
/// returns the records of the types by kind.
pub fn add_all_empty_subgraph_types(
    supergraph: &Schema,
    specs: &Specs,
    subgraphs: &mut FederationSubgraphs,
    names: &GraphNames,
) -> (r: Result<TypeInfos, FederationError>)
    ensures
        match scaffold(supergraph@, specs.deep_view(), names@, old(subgraphs)@) {
            Ok(st) => r is Ok && final(subgraphs)@ == st.subgraphs && r->Ok_0.deep_view()
                == st.infos,
            Err(e) => r is Err && r->Err_0@ == e,
        },
        names_of(final(subgraphs)@) == names_of(old(subgraphs)@),
        all_closed(old(subgraphs)@) && r is Ok ==> all_closed(final(subgraphs)@),
        all_kinds_follow(supergraph@, old(subgraphs)@) && r is Ok ==> all_kinds_follow(
            supergraph@,
            final(subgraphs)@,
        ),
{
    let type_directive = specs.join.required_directive(supergraph, "type")?;
    let ghost all = supergraph@.types;
    let ghost step = scaffold_step(names@, specs.deep_view(), type_directive@);
    let ghost start = ScaffoldView { subgraphs: subgraphs@, infos: TypeInfosView::empty() };
    let mut infos = TypeInfos::new();
    let mut k: usize = 0;
    while k < supergraph.types.len()
        invariant
            k <= supergraph.types.len(),
            all == supergraph@.types,
            step == scaffold_step(names@, specs.deep_view(), type_directive@),
            start == (ScaffoldView { subgraphs: old(subgraphs)@, infos: TypeInfosView::empty() }),
            scaffold(supergraph@, specs.deep_view(), names@, old(subgraphs)@) == try_fold(
                all,
                0,
                start,
                step,
            ),
            names_of(subgraphs@) == names_of(old(subgraphs)@),
            all_closed(old(subgraphs)@) ==> all_closed(subgraphs@),
            all_kinds_follow(supergraph@, old(subgraphs)@) ==> all_kinds_follow(
                supergraph@,
                subgraphs@,
            ),
            try_fold(
                all,
                k as int,
                ScaffoldView { subgraphs: subgraphs@, infos: infos.deep_view() },
                step,
            ) == try_fold(all, 0, start, step),
        decreases supergraph.types.len() - k,
    {
        let t = &supergraph.types[k];
        if !specs.is_spec_type(t.name.as_str()) {
            let apps = type_applications(&t.directives, type_directive.as_str())?;
            let ghost head = subgraphs@;
            if t.kind == TypeKind::Scalar {
                add_scalar(t.name.as_str(), &apps, subgraphs, names)?;
            } else {
                let info = add_empty_type(t.name.as_str(), t.kind, &apps, subgraphs, names)?;
                infos.push(t.kind, info);
            }
            proof {
                if all_kinds_follow(supergraph@, head) {
                    lemma_follow_shelled(supergraph@, head, subgraphs@, k as int);
                }
            }
        }
        k += 1;
    }
    Ok(infos)
}

} // verus!
