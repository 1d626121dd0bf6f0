//! Sequence notions shared by the contracts: the first position at which a
//! predicate holds, and a left fold that stops at the first error.
use vstd::prelude::*;

verus! {

/// The first position of `s` whose item satisfies `p`, if there is one.
#[verifier::opaque]
pub open spec fn first_where<T>(s: Seq<T>, p: spec_fn(T) -> bool) -> Option<int> {
    if exists|i: int| 0 <= i < s.len() && p(s[i]) {
        Some(
            choose|i: int|
                0 <= i < s.len() && p(s[i]) && forall|j: int| 0 <= j < i ==> !p(#[trigger] s[j]),
        )
    } else {
        None
    }
}

/// Among the positions that satisfy `p` and lie at or below `bound`, there is
/// a least one.
proof fn lemma_least_exists<T>(s: Seq<T>, p: spec_fn(T) -> bool, bound: int)
    requires
        0 <= bound < s.len(),
        p(s[bound]),
    ensures
        exists|i: int|
            0 <= i <= bound && p(s[i]) && forall|j: int| 0 <= j < i ==> !p(#[trigger] s[j]),
    decreases bound,
{
    if exists|k: int| 0 <= k < bound && p(s[k]) {
        let k = choose|k: int| 0 <= k < bound && p(s[k]);
        lemma_least_exists(s, p, k);
    } else {
        assert(forall|j: int| 0 <= j < bound ==> !p(#[trigger] s[j]));
    }
}

/// What `first_where` returns, spelled out.
pub proof fn lemma_first_where<T>(s: Seq<T>, p: spec_fn(T) -> bool)
    ensures
        match first_where(s, p) {
            Some(i) => 0 <= i < s.len() && p(s[i]) && forall|j: int|
                0 <= j < i ==> !p(#[trigger] s[j]),
            None => forall|j: int| 0 <= j < s.len() ==> !p(#[trigger] s[j]),
        },
{
    reveal(first_where);
    if exists|i: int| 0 <= i < s.len() && p(s[i]) {
        let b = choose|i: int| 0 <= i < s.len() && p(s[i]);
        lemma_least_exists(s, p, b);
    }
}

/// A position that satisfies `p`, with none before it that does, is the one
/// `first_where` returns.
pub proof fn lemma_first_where_is<T>(s: Seq<T>, p: spec_fn(T) -> bool, i: int)
    requires
        0 <= i < s.len(),
        p(s[i]),
        forall|j: int| 0 <= j < i ==> !p(#[trigger] s[j]),
    ensures
        first_where(s, p) == Some(i),
{
    lemma_first_where(s, p);
    let k = first_where(s, p)->0;
    if k < i {
        assert(!p(s[k]));
    }
    if i < k {
        assert(!p(s[i]));
    }
}

/// Where no item satisfies `p`, `first_where` returns nothing.
pub proof fn lemma_first_where_none<T>(s: Seq<T>, p: spec_fn(T) -> bool)
    requires
        forall|j: int| 0 <= j < s.len() ==> !p(#[trigger] s[j]),
    ensures
        first_where(s, p).is_none(),
{
    reveal(first_where);
}

/// Where two sequences agree on `p` item by item, the first position that
/// satisfies `p` is the same in both.
pub proof fn lemma_first_where_same<T>(a: Seq<T>, b: Seq<T>, p: spec_fn(T) -> bool)
    requires
        a.len() == b.len(),
        forall|i: int| 0 <= i < a.len() ==> p(#[trigger] a[i]) == p(b[i]),
    ensures
        first_where(a, p) == first_where(b, p),
{
    lemma_first_where(a, p);
    lemma_first_where(b, p);
    match first_where(a, p) {
        Some(i) => {
            assert(p(b[i]));
            assert forall|j: int| 0 <= j < i implies !p(#[trigger] b[j]) by {
                assert(!p(a[j]));
            }
            lemma_first_where_is(b, p, i);
        },
        None => {
            assert forall|j: int| 0 <= j < b.len() implies !p(#[trigger] b[j]) by {
                assert(!p(a[j]));
            }
            lemma_first_where_none(b, p);
        },
    }
}

/// The first position that satisfies `p` in a sequence with one more item.
pub proof fn lemma_first_where_push<T>(s: Seq<T>, x: T, p: spec_fn(T) -> bool)
    ensures
        first_where(s.push(x), p) == match first_where(s, p) {
            Some(i) => Some(i),
            None => if p(x) {
                Some(s.len() as int)
            } else {
                None
            },
        },
{
    lemma_first_where(s, p);
    let after = s.push(x);
    match first_where(s, p) {
        Some(i) => {
            assert(after[i] == s[i]);
            assert forall|j: int| 0 <= j < i implies !p(#[trigger] after[j]) by {
                assert(after[j] == s[j]);
            }
            lemma_first_where_is(after, p, i);
        },
        None => {
            assert forall|j: int| 0 <= j < s.len() implies !p(#[trigger] after[j]) by {
                assert(after[j] == s[j]);
            }
            if p(x) {
                lemma_first_where_is(after, p, s.len() as int);
            } else {
                lemma_first_where_none(after, p);
            }
        },
    }
}

/// The left fold of `step` over `items[from..]`, starting from `state`, that
/// stops at the first error.
pub open spec fn try_fold<T, S, E>(
    items: Seq<T>,
    from: int,
    state: S,
    step: spec_fn(S, T) -> Result<S, E>,
) -> Result<S, E>
    decreases items.len() - from,
{
    if from < 0 || from >= items.len() {
        Ok(state)
    } else {
        match step(state, items[from]) {
            Ok(next) => try_fold(items, from + 1, next, step),
            Err(e) => Err(e),
        }
    }
}

/// A property that holds at the start and that every successful step keeps
/// holds of the outcome of a successful fold.
pub proof fn lemma_try_fold_keeps<T, S, E>(
    items: Seq<T>,
    from: int,
    state: S,
    step: spec_fn(S, T) -> Result<S, E>,
    inv: spec_fn(S) -> bool,
)
    requires
        0 <= from,
        inv(state),
        forall|s: S, i: int|
            from <= i < items.len() && inv(s) && (#[trigger] step(s, items[i])) is Ok ==> inv(
                step(s, items[i])->Ok_0,
            ),
    ensures
        try_fold(items, from, state, step) matches Ok(s) ==> inv(s),
    decreases items.len() - from,
{
    if from < items.len() {
        match step(state, items[from]) {
            Ok(next) => {
                lemma_try_fold_keeps(items, from + 1, next, step, inv);
            },
            Err(_) => {},
        }
    }
}

/// Pushing onto a vector pushes the item's value onto the vector's value.
pub proof fn lemma_deep_view_push<T: DeepView>(before: Vec<T>, after: Vec<T>, item: T)
    requires
        after@ == before@.push(item),
    ensures
        after.deep_view() == before.deep_view().push(item.deep_view()),
{
    assert(after.deep_view() =~= before.deep_view().push(item.deep_view()));
}

/// The value of an empty vector is the empty sequence.
pub proof fn lemma_deep_view_empty<T: DeepView>(v: Vec<T>)
    requires
        v@.len() == 0,
    ensures
        v.deep_view() == Seq::<T::V>::empty(),
{
    assert(v.deep_view() =~= Seq::<T::V>::empty());
}

/// Removing an item from a vector removes its value from the vector's value.
pub proof fn lemma_deep_view_remove<T: DeepView>(before: Vec<T>, after: Vec<T>, i: int)
    requires
        0 <= i < before@.len(),
        after@ == before@.remove(i),
    ensures
        after.deep_view() == before.deep_view().remove(i),
{
    assert(after.deep_view() =~= before.deep_view().remove(i));
}

/// Inserting an item into a vector inserts its value into the vector's value.
pub proof fn lemma_deep_view_insert<T: DeepView>(before: Vec<T>, after: Vec<T>, i: int, item: T)
    requires
        0 <= i <= before@.len(),
        after@ == before@.insert(i, item),
    ensures
        after.deep_view() == before.deep_view().insert(i, item.deep_view()),
{
    assert(after.deep_view() =~= before.deep_view().insert(i, item.deep_view()));
}

/// The state of a filter that runs in place over a sequence: `cur` holds, up
/// to `j`, what the filter keeps of the first `k` items of `orig`, and from
/// `j` on the items of `orig` that are still to be looked at.
pub open spec fn retaining<T>(
    cur: Seq<T>,
    orig: Seq<T>,
    p: spec_fn(T) -> bool,
    j: int,
    k: int,
) -> bool {
    &&& 0 <= j <= cur.len()
    &&& 0 <= k <= orig.len()
    &&& cur.len() - j == orig.len() - k
    &&& cur.take(j) == orig.take(k).filter(p)
    &&& cur.skip(j) == orig.skip(k)
}

/// An in-place filter starts with nothing looked at.
pub proof fn lemma_retaining_start<T>(orig: Seq<T>, p: spec_fn(T) -> bool)
    ensures
        retaining(orig, orig, p, 0, 0),
{
    reveal(Seq::filter);
    assert(orig.take(0) =~= Seq::<T>::empty());
    assert(orig.take(0).filter(p) =~= Seq::<T>::empty());
    assert(orig.skip(0) =~= orig);
}

/// The item at `j` is the next item of `orig` to look at.
pub proof fn lemma_retaining_next<T>(
    cur: Seq<T>,
    orig: Seq<T>,
    p: spec_fn(T) -> bool,
    j: int,
    k: int,
)
    requires
        retaining(cur, orig, p, j, k),
        j < cur.len(),
    ensures
        k < orig.len(),
        cur[j] == orig[k],
{
    assert(cur.skip(j)[0] == orig.skip(k)[0]);
}

/// An in-place filter after it has kept the item at `j`.
pub proof fn lemma_retaining_keep<T>(
    cur: Seq<T>,
    orig: Seq<T>,
    p: spec_fn(T) -> bool,
    j: int,
    k: int,
)
    requires
        retaining(cur, orig, p, j, k),
        j < cur.len(),
        p(cur[j]),
    ensures
        retaining(cur, orig, p, j + 1, k + 1),
{
    lemma_retaining_next(cur, orig, p, j, k);
    assert(orig.take(k + 1) =~= orig.take(k).push(orig[k]));
    orig.take(k).lemma_filter_push(orig[k], p);
    assert(cur.take(j + 1) =~= cur.take(j).push(cur[j]));
    assert(cur.skip(j + 1) =~= cur.skip(j).drop_first());
    assert(orig.skip(k + 1) =~= orig.skip(k).drop_first());
}

/// An in-place filter after it has removed the item at `j`.
pub proof fn lemma_retaining_drop<T>(
    cur: Seq<T>,
    orig: Seq<T>,
    p: spec_fn(T) -> bool,
    j: int,
    k: int,
)
    requires
        retaining(cur, orig, p, j, k),
        j < cur.len(),
        !p(cur[j]),
    ensures
        retaining(cur.remove(j), orig, p, j, k + 1),
{
    lemma_retaining_next(cur, orig, p, j, k);
    assert(orig.take(k + 1) =~= orig.take(k).push(orig[k]));
    orig.take(k).lemma_filter_push(orig[k], p);
    assert(cur.remove(j).take(j) =~= cur.take(j));
    assert(cur.remove(j).skip(j) =~= cur.skip(j).drop_first());
    assert(orig.skip(k + 1) =~= orig.skip(k).drop_first());
}

/// An in-place filter that has looked at every item holds what the filter
/// keeps.
pub proof fn lemma_retaining_done<T>(
    cur: Seq<T>,
    orig: Seq<T>,
    p: spec_fn(T) -> bool,
    j: int,
    k: int,
)
    requires
        retaining(cur, orig, p, j, k),
        j == cur.len(),
    ensures
        cur == orig.filter(p),
{
    assert(cur.take(j) =~= cur);
    assert(orig.take(k) =~= orig);
}

} // verus!
