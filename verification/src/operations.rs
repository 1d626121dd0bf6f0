//! The federation operations of a service: the `_Any` scalar, the `_Service`
//! type, the `_Entity` union of the types that carry a key, and the fields
//! `_service` and `_entities` of the query root.
use crate::kinds::{
    kinds_within_operations, lemma_operations_chain, lemma_operations_same,
    lemma_operations_shell,
};
use crate::edits::{RootKind, outcome};
use crate::error::{ErrorView, FederationError};
use crate::federation::{
    input_value, make_input_value, make_named_type, make_non_null_type, named_type, non_null_type,
};
use crate::provenance::{applies, first_application};
use crate::scaffold::no_directives;
use crate::schema::{
    Field, FieldView, Schema, SchemaView, TypeDefinitionView, TypeKind, TypeRef, TypeRefView,
};
use crate::seqs::{first_where, lemma_deep_view_empty, lemma_deep_view_push, try_fold};
use crate::subgraphs::{FederationSubgraph, SubgraphView};
use crate::surface::{lemma_entity_surface, lemma_operations_no_empty_shells, surface_consistent};
use vstd::prelude::*;
use vstd::string::*;

verus! {

/// Whether the type is an object that carries a key.
pub open spec fn is_entity(t: TypeDefinitionView) -> bool {
    t.kind == TypeKind::Object && first_where(t.directives, applies("federation__key"@)).is_some()
}

/// The types that are objects and carry a key.
pub open spec fn entities() -> spec_fn(TypeDefinitionView) -> bool {
    |t: TypeDefinitionView| is_entity(t)
}

/// The name of a type.
pub open spec fn name_of() -> spec_fn(TypeDefinitionView) -> Seq<char> {
    |t: TypeDefinitionView| t.name
}

/// The names of the objects of the schema that carry a key, in the order of
/// the schema.
pub open spec fn entity_names(schema: SchemaView) -> Seq<Seq<char>> {
    schema.types.filter(entities()).map_values(name_of())
}

/// A field without arguments and without directives.
pub open spec fn plain_field(name: Seq<char>, ty: TypeRefView) -> FieldView {
    FieldView { name, arguments: Seq::empty(), ty, directives: Seq::empty() }
}

/// `sdl: String`.
pub open spec fn sdl_field() -> FieldView {
    plain_field("sdl"@, named_type("String"@))
}

/// `_service: _Service!`.
pub open spec fn service_field() -> FieldView {
    plain_field("_service"@, non_null_type("_Service"@))
}

/// `[_Any!]!`.
pub open spec fn representations_type() -> TypeRefView {
    TypeRefView { name: "_Any"@, non_null: true, lists: seq![true] }
}

/// `[_Entity]!`.
pub open spec fn entities_type() -> TypeRefView {
    TypeRefView { name: "_Entity"@, non_null: false, lists: seq![true] }
}

/// `_entities(representations: [_Any!]!): [_Entity]!`.
pub open spec fn entities_field() -> FieldView {
    FieldView {
        name: "_entities"@,
        arguments: seq![input_value("representations"@, representations_type())],
        ty: entities_type(),
        directives: Seq::empty(),
    }
}

/// One step of filling the union of entities.
pub open spec fn entity_step() -> spec_fn(SchemaView, Seq<char>) -> Result<SchemaView, ErrorView> {
    |schema: SchemaView, member: Seq<char>| schema.insert_member("_Entity"@, member)
}

impl SchemaView {
    /// The schema with the `_Any` scalar and the `_Service` type.
    pub open spec fn add_service_types(self) -> Result<SchemaView, ErrorView> {
        match self.insert_shell("_Any"@, TypeKind::Scalar, Seq::empty()) {
            Err(e) => Err(e),
            Ok(s1) => match s1.insert_shell("_Service"@, TypeKind::Object, Seq::empty()) {
                Err(e) => Err(e),
                Ok(s2) => s2.insert_field("_Service"@, TypeKind::Object, sdl_field()),
            },
        }
    }

    /// The schema with the union `_Entity` of `members`, where there are any.
    pub open spec fn add_entity_union(self, members: Seq<Seq<char>>) -> Result<
        SchemaView,
        ErrorView,
    > {
        if members.len() == 0 {
            Ok(self)
        } else {
            match self.insert_shell("_Entity"@, TypeKind::Union, Seq::empty()) {
                Err(e) => Err(e),
                Ok(s) => try_fold(members, 0, s, entity_step()),
            }
        }
    }

    /// The schema with a query root: an empty object `Query` where nothing
    /// serves queries yet.
    pub open spec fn ensure_query_root(self) -> Result<SchemaView, ErrorView> {
        if self.query_type.is_some() {
            Ok(self)
        } else {
            match self.insert_shell("Query"@, TypeKind::Object, Seq::empty()) {
                Err(e) => Err(e),
                Ok(s) => s.insert_root(RootKind::Query, "Query"@),
            }
        }
    }

    /// The schema with the fields of the query root `query`: `_entities`,
    /// anew, where the service has entities and not at all where it has none,
    /// and `_service`.
    pub open spec fn add_root_fields(self, query: Seq<char>, has_entities: bool) -> Result<
        SchemaView,
        ErrorView,
    > {
        let cleared = self.remove_field(query, "_entities"@);
        let with_entities = if has_entities {
            cleared.insert_field(query, TypeKind::Object, entities_field())
        } else {
            Ok(cleared)
        };
        match with_entities {
            Err(e) => Err(e),
            Ok(s) => s.insert_field(query, TypeKind::Object, service_field()),
        }
    }

    /// The schema with the federation operations: `_Any` and `_Service`
    /// always; `_Entity`, with the objects that carry a key as members, and
    /// the field `_entities` of the query root where there is such an object,
    /// and neither where there is none; a query root, made where the schema
    /// has none, with the field `_service`.
    pub open spec fn add_federation_operations(self) -> Result<SchemaView, ErrorView> {
        match self.add_service_types() {
            Err(e) => Err(e),
            Ok(s1) => {
                let members = entity_names(s1);
                match s1.add_entity_union(members) {
                    Err(e) => Err(e),
                    Ok(s2) => match s2.ensure_query_root() {
                        Err(e) => Err(e),
                        Ok(s3) => match s3.query_type {
                            None => Ok(s3),
                            Some(query) => s3.add_root_fields(query, members.len() > 0),
                        },
                    },
                }
            },
        }
    }
}

/// A field without arguments and without directives.
fn make_plain_field(name: &str, ty: TypeRef) -> (r: Field)
    ensures
        r@ == plain_field(name@, ty@),
{
    let r = Field {
        name: String::from_str(name),
        arguments: Vec::new(),
        ty,
        directives: Vec::new(),
    };
    proof {
        lemma_deep_view_empty(r.arguments);
        lemma_deep_view_empty(r.directives);
    }
    r
}

/// `_entities(representations: [_Any!]!): [_Entity]!`.
fn make_entities_field() -> (r: Field)
    ensures
        r@ == entities_field(),
{
    let representations = TypeRef {
        name: String::from_str("_Any"),
        non_null: true,
        lists: vec![true],
    };
    assert(representations.lists@ =~= seq![true]);
    let a = make_input_value("representations", representations);
    let ty = TypeRef { name: String::from_str("_Entity"), non_null: false, lists: vec![true] };
    assert(ty.lists@ =~= seq![true]);
    let r = Field {
        name: String::from_str("_entities"),
        arguments: vec![a],
        ty,
        directives: Vec::new(),
    };
    proof {
        lemma_deep_view_empty(r.directives);
        assert(r.arguments.deep_view() =~= seq![a@]);
    }
    r
}

impl Schema {
    /// The names of the objects of the schema that carry a key.
    pub fn entity_names(&self) -> (r: Vec<String>)
        ensures
            r.deep_view() == entity_names(self@),
    {
        let ghost all = self@.types;
        let mut r: Vec<String> = Vec::new();
        let mut i: usize = 0;
        proof {
            reveal(Seq::filter);
            assert(all.take(0) =~= Seq::<TypeDefinitionView>::empty());
            assert(r.deep_view() =~= all.take(0).filter(entities()).map_values(name_of()));
        }
        while i < self.types.len()
            invariant
                i <= self.types.len(),
                all == self@.types,
                r.deep_view() == all.take(i as int).filter(entities()).map_values(name_of()),
            decreases self.types.len() - i,
        {
            let t = &self.types[i];
            let keyed = t.kind == TypeKind::Object && first_application(
                &t.directives,
                "federation__key",
            ).is_some();
            proof {
                assert(all.take(i + 1) =~= all.take(i as int).push(all[i as int]));
                all.take(i as int).lemma_filter_push(all[i as int], entities());
            }
            if keyed {
                let ghost before = r;
                let name = t.name.clone();
                r.push(name);
                proof {
                    lemma_deep_view_push(before, r, name);
                    assert(r.deep_view() =~= all.take(i + 1).filter(entities()).map_values(
                        name_of(),
                    ));
                }
            }
            i += 1;
        }
        assert(all.take(self.types.len() as int) =~= all);
        r
    }

    /// Adds the `_Any` scalar and the `_Service` type.
    fn add_service_types(&mut self) -> (r: Result<(), FederationError>)
        ensures
            outcome(r, final(self)@, old(self)@.add_service_types()),
            old(self)@.closed() && r is Ok ==> final(self)@.closed(),
            r is Ok ==> kinds_within_operations(old(self)@, final(self)@),
    {
        self.insert_shell("_Any", TypeKind::Scalar, no_directives())?;
        let ghost first = self@;
        self.insert_shell("_Service", TypeKind::Object, no_directives())?;
        let ghost second = self@;
        let r = self.insert_field(
            "_Service",
            TypeKind::Object,
            make_plain_field("sdl", make_named_type("String")),
        );
        proof {
            lemma_operations_shell(old(self)@, old(self)@, first, "_Any"@, TypeKind::Scalar);
            lemma_operations_shell(old(self)@, first, second, "_Service"@, TypeKind::Object);
            lemma_operations_same(old(self)@, second, self@);
        }
        r
    }

    /// Adds the union `_Entity` of `members`, where there are any.
    fn add_entity_union(&mut self, members: &Vec<String>) -> (r: Result<(), FederationError>)
        ensures
            outcome(r, final(self)@, old(self)@.add_entity_union(members.deep_view())),
            old(self)@.closed() && r is Ok ==> final(self)@.closed(),
            r is Ok ==> kinds_within_operations(old(self)@, final(self)@),
    {
        if members.len() == 0 {
            return Ok(());
        }
        self.insert_shell("_Entity", TypeKind::Union, no_directives())?;
        proof {
            lemma_operations_shell(old(self)@, old(self)@, self@, "_Entity"@, TypeKind::Union);
        }
        let ghost all = members.deep_view();
        let ghost start = self@;
        let mut k: usize = 0;
        while k < members.len()
            invariant
                k <= members.len(),
                members.len() > 0,
                all == members.deep_view(),
                old(self)@.closed() ==> self@.closed(),
                kinds_within_operations(old(self)@, self@),
                old(self)@.add_entity_union(all) == try_fold(all, 0, start, entity_step()),
                try_fold(all, k as int, self@, entity_step()) == try_fold(
                    all,
                    0,
                    start,
                    entity_step(),
                ),
            decreases members.len() - k,
        {
            let ghost before = self@;
            let added = self.insert_member("_Entity", members[k].as_str());
            proof {
                lemma_operations_same(old(self)@, before, self@);
            }
            added?;
            k += 1;
        }
        Ok(())
    }

    /// Makes an empty object `Query` the query root where nothing serves
    /// queries yet.
    fn ensure_query_root(&mut self) -> (r: Result<(), FederationError>)
        ensures
            outcome(r, final(self)@, old(self)@.ensure_query_root()),
            old(self)@.closed() && r is Ok ==> final(self)@.closed(),
            r is Ok ==> kinds_within_operations(old(self)@, final(self)@),
    {
        if self.query_type.is_some() {
            return Ok(());
        }
        self.insert_shell("Query", TypeKind::Object, no_directives())?;
        let ghost shelled = self@;
        let r = self.insert_root(RootKind::Query, "Query");
        proof {
            lemma_operations_shell(old(self)@, old(self)@, shelled, "Query"@, TypeKind::Object);
            lemma_operations_same(old(self)@, shelled, self@);
        }
        r
    }

    /// Adds the fields of the query root `query`.
    fn add_root_fields(&mut self, query: &str, has_entities: bool) -> (r: Result<
        (),
        FederationError,
    >)
        ensures
            outcome(r, final(self)@, old(self)@.add_root_fields(query@, has_entities)),
            old(self)@.closed() && r is Ok ==> final(self)@.closed(),
            r is Ok ==> kinds_within_operations(old(self)@, final(self)@),
    {
        self.remove_field(query, "_entities");
        proof {
            lemma_operations_same(old(self)@, old(self)@, self@);
        }
        if has_entities {
            let ghost before = self@;
            let added = self.insert_field(query, TypeKind::Object, make_entities_field());
            proof {
                lemma_operations_same(old(self)@, before, self@);
            }
            added?;
        }
        let ghost before = self@;
        let r = self.insert_field(
            query,
            TypeKind::Object,
            make_plain_field("_service", make_non_null_type("_Service")),
        );
        proof {
            lemma_operations_same(old(self)@, before, self@);
        }
        r
    }

    /// Adds the federation operations to the schema. The schema keeps the
    /// objects that carry a key, gets a consistent entity surface, and gets no
    /// empty shell where it had none.
    pub fn add_federation_operations(&mut self) -> (r: Result<(), FederationError>)
        ensures
            outcome(r, final(self)@, old(self)@.add_federation_operations()),
            old(self)@.closed() && r is Ok ==> final(self)@.closed(),
            r is Ok ==> kinds_within_operations(old(self)@, final(self)@),
            old(self)@.no_empty_shells() && r is Ok ==> final(self)@.no_empty_shells(),
            r is Ok ==> surface_consistent(final(self)@),
            r is Ok ==> entity_names(final(self)@) == entity_names(old(self)@),
    {
        proof {
            lemma_entity_surface(self@);
            if self@.no_empty_shells() {
                lemma_operations_no_empty_shells(self@);
            }
        }
        self.add_service_types()?;
        let ghost first = self@;
        let members = self.entity_names();
        self.add_entity_union(&members)?;
        let ghost second = self@;
        self.ensure_query_root()?;
        let ghost third = self@;
        proof {
            lemma_operations_chain(old(self)@, first, second);
            lemma_operations_chain(old(self)@, second, third);
        }
        let query = match &self.query_type {
            None => {
                return Ok(());
            },
            Some(q) => q.clone(),
        };
        let r = self.add_root_fields(query.as_str(), members.len() > 0);
        proof {
            if r is Ok {
                lemma_operations_chain(old(self)@, third, self@);
            }
        }
        r
    }
}

/// Adds to a service the standard federation surface: the scalar `_Any`, the
/// type `_Service`, the union `_Entity` and the field `_entities` where the
/// service has entities, and the field `_service` of its query root.
pub fn add_federation_operations(subgraph: &mut FederationSubgraph) -> (r: Result<
    (),
    FederationError,
>)
    ensures
        match old(subgraph)@.schema.add_federation_operations() {
            Ok(schema) => r is Ok && final(subgraph)@ == (SubgraphView {
                schema,
                ..old(subgraph)@
            }),
            Err(e) => r is Err && r->Err_0@ == e,
        },
        old(subgraph)@.schema.closed() && r is Ok ==> final(subgraph)@.schema.closed(),
        old(subgraph)@.schema.no_empty_shells() && r is Ok
            ==> final(subgraph)@.schema.no_empty_shells(),
        r is Ok ==> surface_consistent(final(subgraph)@.schema),
        r is Ok ==> entity_names(final(subgraph)@.schema) == entity_names(old(subgraph)@.schema),
        r is Ok ==> kinds_within_operations(old(subgraph)@.schema, final(subgraph)@.schema),
{
    subgraph.schema.add_federation_operations()
}

} // verus!
