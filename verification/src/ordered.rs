//! Insertion-ordered maps keyed by name, kept in `indexmap::IndexMap`. The
//! map's methods are reached through trusted wrappers, each stated over the
//! sequence of entries that the map holds; the two map types of this module
//! add the proof that no key is held twice.
use crate::seqs::{first_where, lemma_first_where, lemma_first_where_is, lemma_first_where_none};
use indexmap::IndexMap;
use vstd::prelude::*;

verus! {

/// `indexmap::IndexMap`, of which the library sees the entries only.
#[verifier::external_type_specification]
#[verifier::external_body]
#[verifier::reject_recursive_types(K)]
#[verifier::reject_recursive_types(V)]
#[verifier::reject_recursive_types(S)]
pub struct ExIndexMap<K, V, S>(IndexMap<K, V, S>);

/// The entries of a map from names to flags, in the map's order.
pub uninterp spec fn flag_entries(m: IndexMap<String, bool>) -> Seq<(Seq<char>, bool)>;

/// The entries of a map from names to names, in the map's order.
pub uninterp spec fn name_entries(m: IndexMap<String, String>) -> Seq<(Seq<char>, Seq<char>)>;

/// `IndexMap::new`: the map it returns holds no entry.
#[verifier::external_body]
fn flags_new() -> (m: IndexMap<String, bool>)
    ensures
        flag_entries(m) == Seq::<(Seq<char>, bool)>::empty(),
{
    IndexMap::new()
}

/// `IndexMap::len`: the number of entries.
#[verifier::external_body]
fn flags_len(m: &IndexMap<String, bool>) -> (n: usize)
    ensures
        n == flag_entries(*m).len(),
{
    m.len()
}

/// `IndexMap::insert`: where an entry has the key, that entry keeps its place
/// and gets the value; where none has, the pair becomes the last entry.
#[verifier::external_body]
fn flags_insert(m: &mut IndexMap<String, bool>, key: String, value: bool)
    ensures
        forall|i: int|
            0 <= i < flag_entries(*old(m)).len() && (#[trigger] flag_entries(*old(m))[i]).0 == key@
                ==> flag_entries(*final(m)) == flag_entries(*old(m)).update(i, (key@, value)),
        (forall|i: int|
            0 <= i < flag_entries(*old(m)).len() ==> (#[trigger] flag_entries(*old(m))[i]).0
                != key@) ==> flag_entries(*final(m)) == flag_entries(*old(m)).push((key@, value)),
{
    m.insert(key, value);
}

/// `IndexMap::get`: the value of an entry that has the key, and nothing where
/// no entry has it.
#[verifier::external_body]
fn flags_get(m: &IndexMap<String, bool>, key: &str) -> (r: Option<bool>)
    ensures
        match r {
            Some(v) => exists|i: int|
                0 <= i < flag_entries(*m).len() && #[trigger] flag_entries(*m)[i] == (key@, v),
            None => forall|i: int|
                0 <= i < flag_entries(*m).len() ==> (#[trigger] flag_entries(*m)[i]).0 != key@,
        },
{
    m.get(key).copied()
}

/// `IndexMap::get_index`: the key of the entry at the position, and nothing
/// at a position that the map does not have.
#[verifier::external_body]
fn flags_key_at(m: &IndexMap<String, bool>, i: usize) -> (r: Option<String>)
    ensures
        match r {
            Some(k) => i < flag_entries(*m).len() && k@ == flag_entries(*m)[i as int].0,
            None => i >= flag_entries(*m).len(),
        },
{
    m.get_index(i).map(|(k, _)| k.clone())
}

/// `IndexMap::new`: the map it returns holds no entry.
#[verifier::external_body]
fn names_new() -> (m: IndexMap<String, String>)
    ensures
        name_entries(m) == Seq::<(Seq<char>, Seq<char>)>::empty(),
{
    IndexMap::new()
}

/// `IndexMap::len`: the number of entries.
#[verifier::external_body]
fn names_len(m: &IndexMap<String, String>) -> (n: usize)
    ensures
        n == name_entries(*m).len(),
{
    m.len()
}

/// `IndexMap::insert`: where an entry has the key, that entry keeps its place
/// and gets the value; where none has, the pair becomes the last entry.
#[verifier::external_body]
fn names_insert(m: &mut IndexMap<String, String>, key: String, value: String)
    ensures
        forall|i: int|
            0 <= i < name_entries(*old(m)).len() && (#[trigger] name_entries(*old(m))[i]).0 == key@
                ==> name_entries(*final(m)) == name_entries(*old(m)).update(i, (key@, value@)),
        (forall|i: int|
            0 <= i < name_entries(*old(m)).len() ==> (#[trigger] name_entries(*old(m))[i]).0
                != key@) ==> name_entries(*final(m)) == name_entries(*old(m)).push(
            (key@, value@),
        ),
{
    m.insert(key, value);
}

/// `IndexMap::get`: the value of an entry that has the key, and nothing where
/// no entry has it.
#[verifier::external_body]
fn names_get(m: &IndexMap<String, String>, key: &str) -> (r: Option<String>)
    ensures
        match r {
            Some(v) => exists|i: int|
                0 <= i < name_entries(*m).len() && #[trigger] name_entries(*m)[i] == (key@, v@),
            None => forall|i: int|
                0 <= i < name_entries(*m).len() ==> (#[trigger] name_entries(*m)[i]).0 != key@,
        },
{
    m.get(key).cloned()
}

/// `IndexMap::get_index`: the key of the entry at the position, and nothing
/// at a position that the map does not have.
#[verifier::external_body]
fn names_key_at(m: &IndexMap<String, String>, i: usize) -> (r: Option<String>)
    ensures
        match r {
            Some(k) => i < name_entries(*m).len() && k@ == name_entries(*m)[i as int].0,
            None => i >= name_entries(*m).len(),
        },
{
    m.get_index(i).map(|(k, _)| k.clone())
}

/// Whether no two entries have the same key.
pub open spec fn distinct_keys<V>(entries: Seq<(Seq<char>, V)>) -> bool {
    forall|i: int, j: int|
        0 <= i < entries.len() && 0 <= j < entries.len() && i != j ==> (#[trigger] entries[i]).0 != (
        #[trigger] entries[j]).0
}

/// The entries that have the key.
pub open spec fn has_key<V>(key: Seq<char>) -> spec_fn((Seq<char>, V)) -> bool {
    |e: (Seq<char>, V)| e.0 == key
}

/// The position of the entry that has the key.
pub open spec fn key_index<V>(entries: Seq<(Seq<char>, V)>, key: Seq<char>) -> Option<int> {
    first_where(entries, has_key(key))
}

/// The value that the entries give to the key.
pub open spec fn lookup<V>(entries: Seq<(Seq<char>, V)>, key: Seq<char>) -> Option<V> {
    match key_index(entries, key) {
        Some(i) => Some(entries[i].1),
        None => None,
    }
}

/// The entries after the key has been given the value: in the place of the
/// entry that had the key, or last.
pub open spec fn put<V>(entries: Seq<(Seq<char>, V)>, key: Seq<char>, value: V) -> Seq<
    (Seq<char>, V),
> {
    match key_index(entries, key) {
        Some(i) => entries.update(i, (key, value)),
        None => entries.push((key, value)),
    }
}

/// The key of an entry has a value.
pub proof fn lemma_key_listed<V>(entries: Seq<(Seq<char>, V)>, k: int)
    requires
        0 <= k < entries.len(),
    ensures
        lookup(entries, entries[k].0).is_some(),
{
    lemma_first_where(entries, has_key::<V>(entries[k].0));
    if key_index(entries, entries[k].0).is_none() {
        assert(!has_key::<V>(entries[k].0)(entries[k]));
    }
}

/// Giving a key a value leaves the keys distinct.
pub proof fn lemma_put_distinct<V>(entries: Seq<(Seq<char>, V)>, key: Seq<char>, value: V)
    requires
        distinct_keys(entries),
    ensures
        distinct_keys(put(entries, key, value)),
{
    let p = has_key::<V>(key);
    lemma_first_where(entries, p);
    let after = put(entries, key, value);
    assert forall|i: int, j: int|
        0 <= i < after.len() && 0 <= j < after.len() && i != j implies (#[trigger] after[i]).0 != (
    #[trigger] after[j]).0 by {
        match key_index(entries, key) {
            Some(k) => {
                if i != k {
                    assert(entries[i].0 != entries[k].0);
                }
                if j != k {
                    assert(entries[j].0 != entries[k].0);
                }
                if i != k && j != k {
                    assert(entries[i].0 != entries[j].0);
                }
            },
            None => {
                if i < entries.len() {
                    assert(!p(entries[i]));
                }
                if j < entries.len() {
                    assert(!p(entries[j]));
                }
                if i < entries.len() && j < entries.len() {
                    assert(entries[i].0 != entries[j].0);
                }
            },
        }
    }
}

/// For one type, the services that own it, in the order in which they were
/// met, each with a flag that says whether the service holds the type as an
/// interface object.
pub struct OwnerFlags {
    map: IndexMap<String, bool>,
}

impl View for OwnerFlags {
    type V = Seq<(Seq<char>, bool)>;

    closed spec fn view(&self) -> Seq<(Seq<char>, bool)> {
        flag_entries(self.map)
    }
}

impl OwnerFlags {
    #[verifier::type_invariant]
    spec fn distinct(self) -> bool {
        distinct_keys(flag_entries(self.map))
    }

    /// A map without entries.
    pub fn new() -> (r: OwnerFlags)
        ensures
            r@ == Seq::<(Seq<char>, bool)>::empty(),
    {
        OwnerFlags { map: flags_new() }
    }

    /// The number of entries, no two of which have the same key.
    pub fn len(&self) -> (n: usize)
        ensures
            n == self@.len(),
            distinct_keys(self@),
    {
        proof {
            use_type_invariant(self);
        }
        flags_len(&self.map)
    }

    /// The flag of `key`.
    pub fn get(&self, key: &str) -> (r: Option<bool>)
        ensures
            r == lookup(self@, key@),
    {
        let r = flags_get(&self.map, key);
        proof {
            use_type_invariant(self);
            let entries = flag_entries(self.map);
            let p = has_key::<bool>(key@);
            match r {
                Some(v) => {
                    let i = choose|i: int| 0 <= i < entries.len() && entries[i] == (key@, v);
                    assert forall|j: int| 0 <= j < i implies !p(#[trigger] entries[j]) by {
                        assert(entries[j].0 != entries[i].0);
                    }
                    lemma_first_where_is(entries, p, i);
                },
                None => {
                    lemma_first_where_none(entries, p);
                },
            }
        }
        r
    }

    /// Whether `key` has an entry.
    pub fn contains_key(&self, key: &str) -> (r: bool)
        ensures
            r == lookup(self@, key@).is_some(),
    {
        self.get(key).is_some()
    }

    /// The key of the entry at position `i`.
    pub fn key_at(&self, i: usize) -> (r: String)
        requires
            i < self@.len(),
        ensures
            r@ == self@[i as int].0,
    {
        match flags_key_at(&self.map, i) {
            Some(k) => k,
            None => vstd::pervasive::unreached(),
        }
    }

    /// The map after `key` has been given the flag `value`.
    pub fn insert(self, key: String, value: bool) -> (r: OwnerFlags)
        ensures
            r@ == put(self@, key@, value),
    {
        proof {
            use_type_invariant(&self);
            let entries = flag_entries(self.map);
            lemma_first_where(entries, has_key::<bool>(key@));
            lemma_put_distinct(entries, key@, value);
        }
        let mut map = self.map;
        flags_insert(&mut map, key, value);
        OwnerFlags { map }
    }
}

/// The service names by the value of the graph enumeration that stands for
/// each, in the order of the enumeration.
pub struct GraphNames {
    map: IndexMap<String, String>,
}

impl View for GraphNames {
    type V = Seq<(Seq<char>, Seq<char>)>;

    closed spec fn view(&self) -> Seq<(Seq<char>, Seq<char>)> {
        name_entries(self.map)
    }
}

impl GraphNames {
    #[verifier::type_invariant]
    spec fn distinct(self) -> bool {
        distinct_keys(name_entries(self.map))
    }

    /// A map without entries.
    pub fn new() -> (r: GraphNames)
        ensures
            r@ == Seq::<(Seq<char>, Seq<char>)>::empty(),
    {
        GraphNames { map: names_new() }
    }

    /// The number of entries, no two of which have the same key.
    pub fn len(&self) -> (n: usize)
        ensures
            n == self@.len(),
            distinct_keys(self@),
    {
        proof {
            use_type_invariant(self);
        }
        names_len(&self.map)
    }

    /// The service name of the enumeration value `key`.
    pub fn get(&self, key: &str) -> (r: Option<String>)
        ensures
            r.deep_view() == lookup(self@, key@),
    {
        let r = names_get(&self.map, key);
        proof {
            use_type_invariant(self);
            let entries = name_entries(self.map);
            let p = has_key::<Seq<char>>(key@);
            match r {
                Some(_) => {
                    let v = r->0;
                    let i = choose|i: int| 0 <= i < entries.len() && entries[i] == (key@, v@);
                    assert forall|j: int| 0 <= j < i implies !p(#[trigger] entries[j]) by {
                        assert(entries[j].0 != entries[i].0);
                    }
                    lemma_first_where_is(entries, p, i);
                },
                None => {
                    lemma_first_where_none(entries, p);
                },
            }
        }
        r
    }

    /// The key of the entry at position `i`.
    pub fn key_at(&self, i: usize) -> (r: String)
        requires
            i < self@.len(),
        ensures
            r@ == self@[i as int].0,
    {
        match names_key_at(&self.map, i) {
            Some(k) => k,
            None => vstd::pervasive::unreached(),
        }
    }

    /// The map after `key` has been given the name `value`.
    pub fn insert(self, key: String, value: String) -> (r: GraphNames)
        ensures
            r@ == put(self@, key@, value@),
    {
        proof {
            use_type_invariant(&self);
            let entries = name_entries(self.map);
            lemma_first_where(entries, has_key::<Seq<char>>(key@));
            lemma_put_distinct(entries, key@, value@);
        }
        let mut map = self.map;
        names_insert(&mut map, key, value);
        GraphNames { map }
    }
}

} // verus!
