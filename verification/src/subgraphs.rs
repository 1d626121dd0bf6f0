//! The services drawn from a supergraph: each with its name, its URL and its
//! schema, kept in a registry that holds every name once and in order.
use crate::closure::all_closed;
use crate::edits::outcome;
use crate::error::{ErrorView, FederationError, internal, invalid_supergraph};
use crate::ordered::{GraphNames, lookup};
use crate::schema::{Schema, SchemaView};
use crate::seqs::{
    first_where, lemma_deep_view_insert, lemma_deep_view_remove, lemma_first_where,
    lemma_first_where_is, lemma_first_where_none,
};
use crate::text::{concat3, lemma_seq_lt_total, lemma_seq_lt_transitive, seq_lt, str_eq, str_lt};
use vstd::prelude::*;
use vstd::string::*;

verus! {

/// The mathematical value of a `FederationSubgraph`.
pub struct SubgraphView {
    pub name: Seq<char>,
    pub url: Seq<char>,
    pub schema: SchemaView,
}

/// One service: its name, the URL at which it is served, and its schema.
#[derive(Debug, PartialEq, Eq)]
pub struct FederationSubgraph {
    pub name: String,
    pub url: String,
    pub schema: Schema,
}

impl View for FederationSubgraph {
    type V = SubgraphView;

    open spec fn view(&self) -> SubgraphView {
        SubgraphView { name: self.name@, url: self.url@, schema: self.schema@ }
    }
}

impl DeepView for FederationSubgraph {
    type V = SubgraphView;

    open spec fn deep_view(&self) -> SubgraphView {
        self@
    }
}

/// The services named `name`.
pub open spec fn named(name: Seq<char>) -> spec_fn(SubgraphView) -> bool {
    |s: SubgraphView| s.name == name
}

/// The services whose name does not come before `name`.
pub open spec fn not_before(name: Seq<char>) -> spec_fn(SubgraphView) -> bool {
    |s: SubgraphView| !seq_lt(s.name, name)
}

/// The position of the service named `name`.
pub open spec fn subgraph_index(subgraphs: Seq<SubgraphView>, name: Seq<char>) -> Option<int> {
    first_where(subgraphs, named(name))
}

/// Whether one of the services is named `name`.
pub open spec fn has_subgraph(subgraphs: Seq<SubgraphView>, name: Seq<char>) -> bool {
    exists|i: int| 0 <= i < subgraphs.len() && (#[trigger] subgraphs[i]).name == name
}

/// A service is found at a position exactly where one of the services has
/// its name.
pub proof fn lemma_subgraph_index(subgraphs: Seq<SubgraphView>, name: Seq<char>)
    ensures
        subgraph_index(subgraphs, name).is_some() == has_subgraph(subgraphs, name),
        subgraph_index(subgraphs, name) matches Some(i) ==> 0 <= i < subgraphs.len()
            && subgraphs[i].name == name,
{
    lemma_first_where(subgraphs, named(name));
    if has_subgraph(subgraphs, name) {
        let i = choose|i: int| 0 <= i < subgraphs.len() && (#[trigger] subgraphs[i]).name == name;
        assert(named(name)(subgraphs[i]));
    }
}

/// Whether the names grow strictly from each service to the next, in the
/// order of strings.
pub open spec fn sorted_by_name(subgraphs: Seq<SubgraphView>) -> bool {
    forall|i: int, j: int|
        0 <= i < j < subgraphs.len() ==> seq_lt(
            (#[trigger] subgraphs[i]).name,
            (#[trigger] subgraphs[j]).name,
        )
}

/// Where a service named `name` goes: before the first service whose name
/// does not come before it.
pub open spec fn insertion_point(subgraphs: Seq<SubgraphView>, name: Seq<char>) -> int {
    match first_where(subgraphs, not_before(name)) {
        Some(i) => i,
        None => subgraphs.len() as int,
    }
}

/// What is said of a second service of one name.
pub open spec fn msg_subgraph_exists(name: Seq<char>) -> Seq<char> {
    "A subgraph named \""@ + name + "\" already exists"@
}

/// The registry after `subgraph` has been added: refused where a service of
/// that name is there already, and put at its place in the order otherwise.
pub open spec fn add_subgraph(subgraphs: Seq<SubgraphView>, subgraph: SubgraphView) -> Result<
    Seq<SubgraphView>,
    ErrorView,
> {
    if subgraph_index(subgraphs, subgraph.name).is_some() {
        Err(invalid_supergraph(msg_subgraph_exists(subgraph.name)))
    } else {
        Ok(subgraphs.insert(insertion_point(subgraphs, subgraph.name), subgraph))
    }
}

/// Adding a service to a sorted registry leaves it sorted.
pub proof fn lemma_add_keeps_sorted(subgraphs: Seq<SubgraphView>, subgraph: SubgraphView)
    requires
        sorted_by_name(subgraphs),
    ensures
        add_subgraph(subgraphs, subgraph) matches Ok(after) ==> sorted_by_name(after),
{
    if subgraph_index(subgraphs, subgraph.name).is_none() {
        let name = subgraph.name;
        lemma_first_where(subgraphs, named(name));
        lemma_first_where(subgraphs, not_before(name));
        let p = insertion_point(subgraphs, name);
        let after = subgraphs.insert(p, subgraph);
        assert forall|i: int, j: int| 0 <= i < j < after.len() implies seq_lt(
            (#[trigger] after[i]).name,
            (#[trigger] after[j]).name,
        ) by {
            if j < p {
                assert(seq_lt(subgraphs[i].name, subgraphs[j].name));
            } else if j == p {
                assert(!not_before(name)(subgraphs[i]));
            } else if i < p {
                assert(seq_lt(subgraphs[i].name, subgraphs[j - 1].name));
            } else if i == p {
                assert(not_before(name)(subgraphs[p]));
                assert(!named(name)(subgraphs[p]));
                lemma_seq_lt_total(name, subgraphs[p].name);
                if j - 1 > p {
                    assert(seq_lt(subgraphs[p].name, subgraphs[j - 1].name));
                    lemma_seq_lt_transitive(name, subgraphs[p].name, subgraphs[j - 1].name);
                }
            } else {
                assert(seq_lt(subgraphs[i - 1].name, subgraphs[j - 1].name));
            }
        }
    }
}

/// The registry of services, by name.
#[derive(Debug, PartialEq, Eq)]
pub struct FederationSubgraphs {
    pub subgraphs: Vec<FederationSubgraph>,
}

impl View for FederationSubgraphs {
    type V = Seq<SubgraphView>;

    open spec fn view(&self) -> Seq<SubgraphView> {
        self.subgraphs.deep_view()
    }
}

impl FederationSubgraphs {
    /// Whether the registry holds its services in the order of their names,
    /// each name once.
    pub open spec fn wf(&self) -> bool {
        sorted_by_name(self@)
    }

    /// A registry without services.
    pub fn new() -> (r: FederationSubgraphs)
        ensures
            r@ == Seq::<SubgraphView>::empty(),
            r.wf(),
    {
        let r = FederationSubgraphs { subgraphs: Vec::new() };
        assert(r@ =~= Seq::<SubgraphView>::empty());
        r
    }

    /// The number of services.
    pub fn len(&self) -> (n: usize)
        ensures
            n == self@.len(),
    {
        self.subgraphs.len()
    }

    /// The position of the service named `name`.
    pub fn index_of(&self, name: &str) -> (r: Option<usize>)
        ensures
            match r {
                Some(i) => subgraph_index(self@, name@) == Some(i as int) && i < self@.len(),
                None => subgraph_index(self@, name@).is_none(),
            },
    {
        let mut i: usize = 0;
        while i < self.subgraphs.len()
            invariant
                i <= self.subgraphs.len(),
                forall|j: int| 0 <= j < i ==> !named(name@)(#[trigger] self@[j]),
            decreases self.subgraphs.len() - i,
        {
            if str_eq(self.subgraphs[i].name.as_str(), name) {
                proof {
                    lemma_first_where_is(self@, named(name@), i as int);
                }
                return Some(i);
            }
            i += 1;
        }
        proof {
            lemma_first_where_none(self@, named(name@));
        }
        None
    }

    /// The service named `name`.
    pub fn get(&self, name: &str) -> (r: Option<&FederationSubgraph>)
        ensures
            match subgraph_index(self@, name@) {
                Some(i) => r.is_some() && r->0@ == self@[i],
                None => r.is_none(),
            },
            r.is_some() == has_subgraph(self@, name@),
            r matches Some(s) ==> s@.name == name@,
    {
        proof {
            lemma_subgraph_index(self@, name@);
        }
        match self.index_of(name) {
            Some(i) => Some(&self.subgraphs[i]),
            None => None,
        }
    }

    /// The services with their names, in the order of the registry, which is
    /// that of the names where the registry is well formed.
    pub fn into_iter(self) -> (r: Vec<(String, FederationSubgraph)>)
        ensures
            r@.len() == self@.len(),
            forall|i: int|
                0 <= i < r@.len() ==> (#[trigger] r@[i]).0@ == self@[i].name && r@[i].1@
                    == self@[i],
            self.wf() ==> forall|i: int, j: int|
                0 <= i < j < r@.len() ==> seq_lt((#[trigger] r@[i]).0@, (#[trigger] r@[j]).0@),
    {
        let ghost all = self@;
        let mut rest = self.subgraphs;
        let mut out: Vec<(String, FederationSubgraph)> = Vec::new();
        assert(rest.deep_view().skip(0) =~= rest.deep_view());
        while rest.len() > 0
            invariant
                out@.len() + rest@.len() == all.len(),
                rest.deep_view() == all.skip(out@.len() as int),
                forall|i: int|
                    0 <= i < out@.len() ==> (#[trigger] out@[i]).0@ == all[i].name && out@[i].1@
                        == all[i],
            decreases rest.len(),
        {
            let ghost before = rest;
            let s = rest.remove(0);
            proof {
                lemma_deep_view_remove(before, rest, 0);
                assert(before.deep_view()[0] == all[out@.len() as int]);
                assert(rest.deep_view() =~= all.skip(out@.len() as int + 1));
            }
            out.push((s.name.clone(), s));
        }
        proof {
            if self.wf() {
                assert forall|i: int, j: int| 0 <= i < j < out@.len() implies seq_lt(
                    (#[trigger] out@[i]).0@,
                    (#[trigger] out@[j]).0@,
                ) by {
                    assert(seq_lt(all[i].name, all[j].name));
                }
            }
        }
        out
    }

    /// Where a service named `name` goes.
    fn find_insertion_point(&self, name: &str) -> (r: usize)
        ensures
            r == insertion_point(self@, name@),
            r <= self@.len(),
    {
        let mut i: usize = 0;
        while i < self.subgraphs.len()
            invariant
                i <= self.subgraphs.len(),
                forall|j: int| 0 <= j < i ==> !not_before(name@)(#[trigger] self@[j]),
            decreases self.subgraphs.len() - i,
        {
            if !str_lt(self.subgraphs[i].name.as_str(), name) {
                proof {
                    lemma_first_where_is(self@, not_before(name@), i as int);
                }
                return i;
            }
            i += 1;
        }
        proof {
            lemma_first_where_none(self@, not_before(name@));
        }
        i
    }

    /// Adds a service. A second service of one name is refused as malformed
    /// input; otherwise the registry holds the service before the first
    /// service whose name does not come before its own, so that a registry in
    /// the order of its names stays in that order.
    pub fn add(&mut self, subgraph: FederationSubgraph) -> (r: Result<(), FederationError>)
        ensures
            outcome(r, final(self)@, add_subgraph(old(self)@, subgraph@)),
            r is Err == has_subgraph(old(self)@, subgraph@.name),
            r is Err ==> final(self)@ == old(self)@,
            r is Ok ==> final(self)@.len() == old(self)@.len() + 1 && has_subgraph(
                final(self)@,
                subgraph@.name,
            ),
            old(self).wf() ==> final(self).wf(),
            all_closed(old(self)@) && subgraph@.schema.closed()
                ==> all_closed(final(self)@),
    {
        proof {
            lemma_subgraph_index(self@, subgraph@.name);
        }
        if self.index_of(subgraph.name.as_str()).is_some() {
            return Err(
                FederationError::invalid_supergraph(
                    concat3("A subgraph named \"", subgraph.name.as_str(), "\" already exists"),
                ),
            );
        }
        let at = self.find_insertion_point(subgraph.name.as_str());
        let ghost before = self.subgraphs;
        proof {
            if self.wf() {
                lemma_add_keeps_sorted(self@, subgraph@);
            }
        }
        self.subgraphs.insert(at, subgraph);
        proof {
            lemma_deep_view_insert(before, self.subgraphs, at as int, subgraph);
            assert(self@[at as int].name == subgraph@.name);
            if all_closed(old(self)@) && subgraph@.schema.closed() {
                assert forall|j: int| 0 <= j < self@.len() implies (
                #[trigger] self@[j]).schema.closed() by {
                    if j < at {
                        assert(old(self)@[j].schema.closed());
                    } else if j > at {
                        assert(old(self)@[j - 1].schema.closed());
                    }
                }
            }
        }
        Ok(())
    }
}

/// What is said of a value that the graph enumeration does not have.
pub open spec fn msg_unknown_graph(graph: Seq<char>) -> Seq<char> {
    "Invalid graph enum_value \""@ + graph
        + "\": does not match an enum value defined in the @join__Graph enum"@
}

/// What is said of a service that the registry lacks.
pub open spec fn msg_no_subgraph() -> Seq<char> {
    "All subgraphs should have been created by \"collect_empty_subgraphs()\""@
}

/// The position in the registry of the service that the value `graph` of the
/// graph enumeration stands for. A value that stands for no service, or for
/// one that the registry lacks, is an internal error.
pub open spec fn resolve(
    names: Seq<(Seq<char>, Seq<char>)>,
    subgraphs: Seq<SubgraphView>,
    graph: Seq<char>,
) -> Result<int, ErrorView> {
    match lookup(names, graph) {
        None => Err(internal(msg_unknown_graph(graph))),
        Some(name) => match subgraph_index(subgraphs, name) {
            None => Err(internal(msg_no_subgraph())),
            Some(i) => Ok(i),
        },
    }
}

/// The registry with `schema` as the schema of the service at position `i`.
pub open spec fn with_schema(subgraphs: Seq<SubgraphView>, i: int, schema: SchemaView) -> Seq<
    SubgraphView,
> {
    subgraphs.update(i, SubgraphView { schema, ..subgraphs[i] })
}

/// The registry after an edit of the schema of the service at position `i`,
/// or the error of the edit.
pub open spec fn edit_at(
    subgraphs: Seq<SubgraphView>,
    i: int,
    edited: Result<SchemaView, ErrorView>,
) -> Result<Seq<SubgraphView>, ErrorView> {
    match edited {
        Ok(schema) => Ok(with_schema(subgraphs, i, schema)),
        Err(e) => Err(e),
    }
}

/// The names of the services, in the order of the registry.
pub open spec fn names_of(subgraphs: Seq<SubgraphView>) -> Seq<Seq<char>> {
    subgraphs.map_values(|s: SubgraphView| s.name)
}

/// A registry in which one service got another schema, seen as a value.
pub proof fn lemma_with_schema(
    before: Vec<FederationSubgraph>,
    after: Vec<FederationSubgraph>,
    i: int,
)
    requires
        0 <= i < before@.len(),
        after@.len() == before@.len(),
        forall|j: int| 0 <= j < before@.len() && j != i ==> after@[j] == before@[j],
        after@[i].name == before@[i].name,
        after@[i].url == before@[i].url,
    ensures
        after.deep_view() == with_schema(before.deep_view(), i, after@[i].schema@),
        names_of(after.deep_view()) == names_of(before.deep_view()),
        all_closed(before.deep_view()) ==> before@[i].schema@.closed(),
        all_closed(before.deep_view()) && after@[i].schema@.closed()
            ==> all_closed(after.deep_view()),
{
    assert(after.deep_view() =~= with_schema(before.deep_view(), i, after@[i].schema@));
    assert(names_of(after.deep_view()) =~= names_of(before.deep_view()));
    if all_closed(before.deep_view()) {
        assert(before.deep_view()[i].schema.closed());
        if after@[i].schema@.closed() {
            assert forall|j: int| 0 <= j < after.deep_view().len() implies (
            #[trigger] after.deep_view()[j]).schema.closed() by {
                if j != i {
                    assert(before.deep_view()[j].schema.closed());
                }
            }
        }
    }
}

/// The position in the registry of the service that the value `graph` of the
/// graph enumeration stands for.
pub fn get_subgraph(subgraphs: &FederationSubgraphs, names: &GraphNames, graph: &str) -> (r:
    Result<usize, FederationError>)
    ensures
        match resolve(names@, subgraphs@, graph@) {
            Ok(i) => r is Ok && r->Ok_0 == i && i < subgraphs@.len(),
            Err(e) => r is Err && r->Err_0@ == e,
        },
{
    let name = match names.get(graph) {
        None => {
            return Err(
                FederationError::internal(
                    concat3(
                        "Invalid graph enum_value \"",
                        graph,
                        "\": does not match an enum value defined in the @join__Graph enum",
                    ),
                ),
            );
        },
        Some(name) => name,
    };
    match subgraphs.index_of(name.as_str()) {
        None => Err(
            FederationError::internal(
                String::from_str(
                    "All subgraphs should have been created by \"collect_empty_subgraphs()\"",
                ),
            ),
        ),
        Some(i) => Ok(i),
    }
}

} // verus!
