//! Finding the first element of a sequence that satisfies a predicate.

use vstd::prelude::*;

verus! {

/// `i` is the least index of `s` whose element satisfies `pred`.
pub open spec fn is_first<T>(s: Seq<T>, pred: spec_fn(T) -> bool, i: int) -> bool {
    &&& 0 <= i < s.len()
    &&& pred(s[i])
    &&& forall|j: int| 0 <= j < i ==> !#[trigger] pred(s[j])
}

/// No element of `s` satisfies `pred`.
pub open spec fn none_satisfies<T>(s: Seq<T>, pred: spec_fn(T) -> bool) -> bool {
    forall|j: int| 0 <= j < s.len() ==> !#[trigger] pred(s[j])
}

/// The least index of `s` whose element satisfies `pred`, where there is one.
pub open spec fn first_index<T>(s: Seq<T>, pred: spec_fn(T) -> bool) -> Option<int> {
    if exists|i: int| is_first(s, pred, i) {
        Some(choose|i: int| is_first(s, pred, i))
    } else {
        None
    }
}

/// At most one index is the first.
pub proof fn lemma_first_unique<T>(s: Seq<T>, pred: spec_fn(T) -> bool, i: int, k: int)
    requires
        is_first(s, pred, i),
        is_first(s, pred, k),
    ensures
        i == k,
{
    if i < k {
        assert(!pred(s[i]));
    } else if k < i {
        assert(!pred(s[k]));
    }
}

/// The first index is found where one exists.
pub proof fn lemma_first_index_some<T>(s: Seq<T>, pred: spec_fn(T) -> bool, i: int)
    requires
        is_first(s, pred, i),
    ensures
        first_index(s, pred) == Some(i),
{
    let k = choose|k: int| is_first(s, pred, k);
    lemma_first_unique(s, pred, i, k);
}

/// There is no first index where no element satisfies the predicate.
pub proof fn lemma_first_index_none<T>(s: Seq<T>, pred: spec_fn(T) -> bool)
    requires
        none_satisfies(s, pred),
    ensures
        first_index(s, pred) is None,
{
    if exists|i: int| is_first(s, pred, i) {
        let i = choose|i: int| is_first(s, pred, i);
        assert(!pred(s[i]));
    }
}

/// What `first_index` returns: the first index, or nothing where nothing satisfies.
pub proof fn lemma_first_index<T>(s: Seq<T>, pred: spec_fn(T) -> bool)
    ensures
        match first_index(s, pred) {
            Some(i) => is_first(s, pred, i),
            None => none_satisfies(s, pred),
        },
    decreases s.len(),
{
    if first_index(s, pred) is None {
        if !none_satisfies(s, pred) {
            let j = choose|j: int| 0 <= j < s.len() && pred(s[j]);
            lemma_least_exists(s, pred, j);
        }
    }
}

/// Below any index that satisfies the predicate there is a first one.
pub proof fn lemma_least_exists<T>(s: Seq<T>, pred: spec_fn(T) -> bool, j: int)
    requires
        0 <= j < s.len(),
        pred(s[j]),
    ensures
        exists|i: int| is_first(s, pred, i),
    decreases j,
{
    if exists|k: int| 0 <= k < j && pred(s[k]) {
        let k = choose|k: int| 0 <= k < j && pred(s[k]);
        lemma_least_exists(s, pred, k);
    } else {
        assert(is_first(s, pred, j));
    }
}

/// Two sequences whose elements agree on the predicate, index by index,
/// have the same first index.
pub proof fn lemma_first_index_same<T>(s: Seq<T>, t: Seq<T>, pred: spec_fn(T) -> bool)
    requires
        s.len() == t.len(),
        forall|j: int| 0 <= j < s.len() ==> pred(#[trigger] s[j]) == pred(t[j]),
    ensures
        first_index(s, pred) == first_index(t, pred),
{
    lemma_first_index(s, pred);
    match first_index(s, pred) {
        Some(i) => {
            assert forall|j: int| 0 <= j < i implies !#[trigger] pred(t[j]) by {
                assert(!pred(s[j]));
            }
            assert(pred(s[i]) == pred(t[i]));
            lemma_first_index_some(t, pred, i);
        },
        None => {
            assert forall|j: int| 0 <= j < t.len() implies !#[trigger] pred(t[j]) by {
                assert(pred(s[j]) == pred(t[j]));
            }
            lemma_first_index_none(t, pred);
        },
    }
}

/// An element put in front that satisfies the predicate is the first.
pub proof fn lemma_first_index_front<T>(s: Seq<T>, x: T, pred: spec_fn(T) -> bool)
    requires
        pred(x),
    ensures
        first_index(s.insert(0, x), pred) == Some(0int),
{
    assert(s.insert(0, x)[0] == x);
    lemma_first_index_some(s.insert(0, x), pred, 0);
}

/// An element put in front that does not satisfy the predicate moves the
/// first index up by one.
pub proof fn lemma_first_index_shift<T>(s: Seq<T>, x: T, pred: spec_fn(T) -> bool)
    requires
        !pred(x),
    ensures
        match first_index(s, pred) {
            Some(i) => first_index(s.insert(0, x), pred) == Some(i + 1),
            None => first_index(s.insert(0, x), pred) is None,
        },
{
    lemma_first_index(s, pred);
    let t = s.insert(0, x);
    assert(t[0] == x);
    assert forall|j: int| 1 <= j < t.len() implies #[trigger] t[j] == s[j - 1] by {}
    match first_index(s, pred) {
        Some(i) => {
            assert forall|j: int| 0 <= j < i + 1 implies !#[trigger] pred(t[j]) by {
                if j >= 1 {
                    assert(!pred(s[j - 1]));
                }
            }
            assert(t[i + 1] == s[i]);
            lemma_first_index_some(t, pred, i + 1);
        },
        None => {
            assert forall|j: int| 0 <= j < t.len() implies !#[trigger] pred(t[j]) by {
                if j >= 1 {
                    assert(!pred(s[j - 1]));
                }
            }
            lemma_first_index_none(t, pred);
        },
    }
}

} // verus!
