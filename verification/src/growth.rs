//! What a stage of population may add to the services, whether it succeeds or
//! fails: members of a type, and only in the schemas of services that the
//! record of the type lists as owners. A service that does not own a type gets
//! no member of it, also where the stage stops at an error.
use crate::members::{has_member, new_members_of, no_new_member};
use crate::ordered::lookup;
use crate::scaffold::TypeInfoView;
use crate::schema::SchemaView;
use crate::subgraphs::{with_schema, SubgraphView};
use vstd::prelude::*;

verus! {

/// Whether the value `graph` of the graph enumeration is listed among the
/// owners and stands for the service `service`.
pub open spec fn owner_for(
    names: Seq<(Seq<char>, Seq<char>)>,
    owners: Seq<(Seq<char>, bool)>,
    service: Seq<char>,
    graph: Seq<char>,
) -> bool {
    lookup(owners, graph).is_some() && lookup(names, graph) == Some(service)
}

/// Whether the owners list a value of the graph enumeration that stands for
/// the service `service`.
pub open spec fn listed_owner(
    names: Seq<(Seq<char>, Seq<char>)>,
    owners: Seq<(Seq<char>, bool)>,
    service: Seq<char>,
) -> bool {
    exists|graph: Seq<char>| #[trigger] owner_for(names, owners, service, graph)
}

/// Whether `after` holds the services of `before`, under their names, and a
/// service has a member that it lacked before only of the type `owner` and
/// only where the owners list the service.
pub open spec fn grown_for(
    before: Seq<SubgraphView>,
    after: Seq<SubgraphView>,
    names: Seq<(Seq<char>, Seq<char>)>,
    owner: Seq<char>,
    owners: Seq<(Seq<char>, bool)>,
) -> bool {
    &&& after.len() == before.len()
    &&& forall|i: int| 0 <= i < before.len() ==> (#[trigger] after[i]).name == before[i].name
    &&& forall|i: int, t: Seq<char>, m: Seq<char>|
        0 <= i < before.len() && #[trigger] has_member(after[i].schema, t, m) ==> has_member(
            before[i].schema,
            t,
            m,
        ) || (t == owner && listed_owner(names, owners, before[i].name))
}

/// Whether the record `k` is a record of the type `name` that lists the
/// service `service` as an owner.
pub open spec fn record_for(
    names: Seq<(Seq<char>, Seq<char>)>,
    infos: Seq<TypeInfoView>,
    name: Seq<char>,
    service: Seq<char>,
    k: int,
) -> bool {
    0 <= k < infos.len() && infos[k].name == name && listed_owner(names, infos[k].owners, service)
}

/// Whether `after` holds the services of `before`, under their names, and a
/// service has a member that it lacked before only of a type of which a
/// record lists the service as an owner.
pub open spec fn grown_for_records(
    before: Seq<SubgraphView>,
    after: Seq<SubgraphView>,
    names: Seq<(Seq<char>, Seq<char>)>,
    infos: Seq<TypeInfoView>,
) -> bool {
    &&& after.len() == before.len()
    &&& forall|i: int| 0 <= i < before.len() ==> (#[trigger] after[i]).name == before[i].name
    &&& forall|i: int, t: Seq<char>, m: Seq<char>|
        0 <= i < before.len() && #[trigger] has_member(after[i].schema, t, m) ==> has_member(
            before[i].schema,
            t,
            m,
        ) || exists|k: int| #[trigger] record_for(names, infos, t, before[i].name, k)
}

/// Chained, growth for the owners of a type stays growth for them.
pub proof fn lemma_grown_chain(
    a: Seq<SubgraphView>,
    b: Seq<SubgraphView>,
    c: Seq<SubgraphView>,
    names: Seq<(Seq<char>, Seq<char>)>,
    owner: Seq<char>,
    owners: Seq<(Seq<char>, bool)>,
)
    requires
        grown_for(a, b, names, owner, owners),
        grown_for(b, c, names, owner, owners),
    ensures
        grown_for(a, c, names, owner, owners),
{
    assert forall|i: int| 0 <= i < a.len() implies (#[trigger] c[i]).name == a[i].name by {
        assert(b[i].name == a[i].name);
    }
    assert forall|i: int, t: Seq<char>, m: Seq<char>|
        0 <= i < a.len() && #[trigger] has_member(c[i].schema, t, m) implies has_member(
        a[i].schema,
        t,
        m,
    ) || (t == owner && listed_owner(names, owners, a[i].name)) by {
        assert(b[i].name == a[i].name);
        if has_member(b[i].schema, t, m) {
        }
    }
}

/// A registry in which the schema of one service got no new member has grown
/// for whatever owners.
pub proof fn lemma_grown_no_new(
    start: Seq<SubgraphView>,
    s: Seq<SubgraphView>,
    i: int,
    schema: SchemaView,
    names: Seq<(Seq<char>, Seq<char>)>,
    owner: Seq<char>,
    owners: Seq<(Seq<char>, bool)>,
)
    requires
        grown_for(start, s, names, owner, owners),
        0 <= i < s.len(),
        no_new_member(s[i].schema, schema),
    ensures
        grown_for(start, with_schema(s, i, schema), names, owner, owners),
{
    let after = with_schema(s, i, schema);
    assert forall|j: int| 0 <= j < start.len() implies (#[trigger] after[j]).name
        == start[j].name by {
        assert(s[j].name == start[j].name);
    }
    assert forall|j: int, t: Seq<char>, m: Seq<char>|
        0 <= j < start.len() && #[trigger] has_member(after[j].schema, t, m) implies has_member(
        start[j].schema,
        t,
        m,
    ) || (t == owner && listed_owner(names, owners, start[j].name)) by {
        if j == i {
            assert(has_member(s[i].schema, t, m));
        } else {
            assert(has_member(s[j].schema, t, m));
        }
    }
}

/// A registry in which the schema of a service that the owners list got new
/// members of the type has grown for the owners.
pub proof fn lemma_grown_edit(
    start: Seq<SubgraphView>,
    s: Seq<SubgraphView>,
    i: int,
    schema: SchemaView,
    names: Seq<(Seq<char>, Seq<char>)>,
    owner: Seq<char>,
    owners: Seq<(Seq<char>, bool)>,
    graph: Seq<char>,
)
    requires
        grown_for(start, s, names, owner, owners),
        0 <= i < s.len(),
        new_members_of(s[i].schema, schema, owner),
        lookup(owners, graph).is_some(),
        lookup(names, graph) == Some(s[i].name),
    ensures
        grown_for(start, with_schema(s, i, schema), names, owner, owners),
{
    let after = with_schema(s, i, schema);
    assert forall|j: int| 0 <= j < start.len() implies (#[trigger] after[j]).name
        == start[j].name by {
        assert(s[j].name == start[j].name);
    }
    assert forall|j: int, t: Seq<char>, m: Seq<char>|
        0 <= j < start.len() && #[trigger] has_member(after[j].schema, t, m) implies has_member(
        start[j].schema,
        t,
        m,
    ) || (t == owner && listed_owner(names, owners, start[j].name)) by {
        assert(s[j].name == start[j].name);
        if j == i {
            if has_member(s[i].schema, t, m) {
            } else {
                assert(owner_for(names, owners, start[i].name, graph));
            }
        } else {
            assert(has_member(s[j].schema, t, m));
        }
    }
}

/// Chained, growth for the records stays growth for them.
pub proof fn lemma_grown_records_chain(
    a: Seq<SubgraphView>,
    b: Seq<SubgraphView>,
    c: Seq<SubgraphView>,
    names: Seq<(Seq<char>, Seq<char>)>,
    infos: Seq<TypeInfoView>,
)
    requires
        grown_for_records(a, b, names, infos),
        grown_for_records(b, c, names, infos),
    ensures
        grown_for_records(a, c, names, infos),
{
    assert forall|i: int| 0 <= i < a.len() implies (#[trigger] c[i]).name == a[i].name by {
        assert(b[i].name == a[i].name);
    }
    assert forall|i: int, t: Seq<char>, m: Seq<char>|
        0 <= i < a.len() && #[trigger] has_member(c[i].schema, t, m) implies has_member(
        a[i].schema,
        t,
        m,
    ) || exists|k: int| #[trigger] record_for(names, infos, t, a[i].name, k) by {
        assert(b[i].name == a[i].name);
        if has_member(b[i].schema, t, m) {
        }
    }
}

/// Growth for the owners of one record is growth for the records.
pub proof fn lemma_grown_of_record(
    a: Seq<SubgraphView>,
    b: Seq<SubgraphView>,
    names: Seq<(Seq<char>, Seq<char>)>,
    infos: Seq<TypeInfoView>,
    k: int,
)
    requires
        0 <= k < infos.len(),
        grown_for(a, b, names, infos[k].name, infos[k].owners),
    ensures
        grown_for_records(a, b, names, infos),
{
    assert forall|i: int, t: Seq<char>, m: Seq<char>|
        0 <= i < a.len() && #[trigger] has_member(b[i].schema, t, m) implies has_member(
        a[i].schema,
        t,
        m,
    ) || exists|j: int| #[trigger] record_for(names, infos, t, a[i].name, j) by {
        if !has_member(a[i].schema, t, m) {
            assert(record_for(names, infos, t, a[i].name, k));
        }
    }
}

} // verus!
