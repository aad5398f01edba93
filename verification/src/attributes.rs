//! The attributes of an element: an ordered list of key/value pairs in
//! which no key occurs twice.

use crate::search::{
    first_index, is_first, lemma_first_index, lemma_first_index_none, lemma_first_index_some, none_satisfies,
};
use vstd::prelude::*;

verus! {

/// An attribute as a pair of character sequences: its key and its value.
pub type PairModel = (Seq<char>, Seq<char>);

/// The predicate "the pair's key is `key`".
pub open spec fn has_key(key: Seq<char>) -> spec_fn(PairModel) -> bool {
    |p: PairModel| p.0 == key
}

/// No key occurs twice.
pub open spec fn distinct_keys(a: Seq<PairModel>) -> bool {
    forall|i: int, j: int| 0 <= i < j < a.len() ==> (#[trigger] a[i]).0 != (#[trigger] a[j]).0
}

/// The value that `a` holds under `key`, if any.
pub open spec fn attribute_value(a: Seq<PairModel>, key: Seq<char>) -> Option<Seq<char>> {
    match first_index(a, has_key(key)) {
        Some(i) => Some(a[i].1),
        None => None,
    }
}

/// `a` with `key` bound to `value`: an existing binding keeps its place, a
/// new one goes to the end.
pub open spec fn with_attribute(a: Seq<PairModel>, key: Seq<char>, value: Seq<char>) -> Seq<PairModel> {
    match first_index(a, has_key(key)) {
        Some(i) => a.update(i, (key, value)),
        None => a.push((key, value)),
    }
}

/// Binding a key keeps the keys distinct.
pub proof fn lemma_with_attribute_distinct(a: Seq<PairModel>, key: Seq<char>, value: Seq<char>)
    requires
        distinct_keys(a),
    ensures
        distinct_keys(with_attribute(a, key, value)),
{
    lemma_first_index(a, has_key(key));
    let b = with_attribute(a, key, value);
    assert forall|i: int, j: int| 0 <= i < j < b.len() implies (#[trigger] b[i]).0 != (#[trigger] b[j]).0 by {
        match first_index(a, has_key(key)) {
            Some(k) => {
                assert(has_key(key)(a[k]));
                assert(b[i].0 == a[i].0);
                assert(b[j].0 == a[j].0);
            },
            None => {
                if j == a.len() {
                    assert(!has_key(key)(a[i]));
                }
            },
        }
    }
}

/// A key that was bound holds the value it was bound to.
pub proof fn lemma_bound_value(a: Seq<PairModel>, key: Seq<char>, value: Seq<char>)
    ensures
        attribute_value(with_attribute(a, key, value), key) == Some(value),
{
    lemma_first_index(a, has_key(key));
    let b = with_attribute(a, key, value);
    match first_index(a, has_key(key)) {
        Some(i) => {
            assert forall|j: int| 0 <= j < i implies !#[trigger] has_key(key)(b[j]) by {
                assert(!has_key(key)(a[j]));
            }
            assert(has_key(key)(b[i]));
            lemma_first_index_some(b, has_key(key), i);
        },
        None => {
            assert forall|j: int| 0 <= j < a.len() implies !#[trigger] has_key(key)(b[j]) by {
                assert(!has_key(key)(a[j]));
            }
            assert(has_key(key)(b[a.len() as int]));
            lemma_first_index_some(b, has_key(key), a.len() as int);
        },
    }
}

/// Binding a key leaves the values of the other keys as they were.
pub proof fn lemma_other_value(a: Seq<PairModel>, key: Seq<char>, value: Seq<char>, other: Seq<char>)
    requires
        other != key,
    ensures
        attribute_value(with_attribute(a, key, value), other) == attribute_value(a, other),
{
    lemma_first_index(a, has_key(key));
    lemma_first_index(a, has_key(other));
    let b = with_attribute(a, key, value);
    assert forall|j: int| 0 <= j < a.len() implies has_key(other)(#[trigger] b[j]) == has_key(other)(a[j]) by {
        if first_index(a, has_key(key)) == Some(j) {
            assert(has_key(key)(a[j]));
        }
    }
    match first_index(a, has_key(other)) {
        Some(i) => {
            assert forall|j: int| 0 <= j < i implies !#[trigger] has_key(other)(b[j]) by {
                assert(!has_key(other)(a[j]));
            }
            assert(has_key(other)(b[i]));
            lemma_first_index_some(b, has_key(other), i);
            if first_index(a, has_key(key)) == Some(i) {
                assert(has_key(key)(a[i]));
            }
        },
        None => {
            assert forall|j: int| 0 <= j < b.len() implies !#[trigger] has_key(other)(b[j]) by {
                if j < a.len() {
                    assert(!has_key(other)(a[j]));
                }
            }
            lemma_first_index_none(b, has_key(other));
        },
    }
}

/// Binding a key twice is binding it to the second value.
pub proof fn lemma_bound_twice(a: Seq<PairModel>, key: Seq<char>, first: Seq<char>, second: Seq<char>)
    ensures
        with_attribute(with_attribute(a, key, first), key, second) == with_attribute(a, key, second),
{
    lemma_first_index(a, has_key(key));
    let b = with_attribute(a, key, first);
    match first_index(a, has_key(key)) {
        Some(i) => {
            assert forall|j: int| 0 <= j < i implies !#[trigger] has_key(key)(b[j]) by {
                assert(!has_key(key)(a[j]));
            }
            assert(has_key(key)(b[i]));
            lemma_first_index_some(b, has_key(key), i);
            assert(b.update(i, (key, second)) =~= a.update(i, (key, second)));
        },
        None => {
            assert forall|j: int| 0 <= j < a.len() implies !#[trigger] has_key(key)(b[j]) by {
                assert(!has_key(key)(a[j]));
            }
            assert(has_key(key)(b[a.len() as int]));
            lemma_first_index_some(b, has_key(key), a.len() as int);
            assert(b.update(a.len() as int, (key, second)) =~= a.push((key, second)));
        },
    }
}

/// Binding a key to the value it holds changes nothing.
pub proof fn lemma_bound_again(a: Seq<PairModel>, key: Seq<char>, value: Seq<char>)
    requires
        attribute_value(a, key) == Some(value),
    ensures
        with_attribute(a, key, value) == a,
{
    lemma_first_index(a, has_key(key));
    let i = first_index(a, has_key(key))->Some_0;
    assert(has_key(key)(a[i]));
    assert(a.update(i, (key, value)) =~= a);
}

/// The pairs of character sequences that a vector of string pairs stands for.
pub open spec fn pairs_model(entries: Seq<(String, String)>) -> Seq<PairModel> {
    Seq::new(entries.len(), |i: int| (entries[i].0@, entries[i].1@))
}

/// The attributes of an element: an ordered list of key/value pairs in
/// which no key occurs twice.
#[derive(Debug, PartialEq, Eq)]
pub struct Attributes {
    pub(crate) entries: Vec<(String, String)>,
}

impl View for Attributes {
    type V = Seq<PairModel>;

    closed spec fn view(&self) -> Seq<PairModel> {
        pairs_model(self.entries@)
    }
}

impl Attributes {
    #[verifier::type_invariant]
    spec fn well_formed(self) -> bool {
        distinct_keys(pairs_model(self.entries@))
    }

    /// No attributes.
    pub fn new() -> (r: Attributes)
        ensures
            r@ == Seq::<PairModel>::empty(),
    {
        let r = Attributes { entries: Vec::new() };
        assert(r@ =~= Seq::<PairModel>::empty());
        r
    }

    /// The number of attributes.
    pub fn len(&self) -> (n: usize)
        ensures
            n == self@.len(),
    {
        self.entries.len()
    }

    /// The attributes in their order, each as its key and its value.
    pub fn entries(&self) -> (r: &Vec<(String, String)>)
        ensures
            pairs_model(r@) == self@,
            distinct_keys(self@),
    {
        proof {
            use_type_invariant(self);
        }
        &self.entries
    }

    /// The position of `key`, if it is bound.
    fn position(&self, key: &String) -> (r: Option<usize>)
        ensures
            match r {
                Some(i) => is_first(self@, has_key(key@), i as int),
                None => none_satisfies(self@, has_key(key@)),
            },
    {
        let mut i: usize = 0;
        while i < self.entries.len()
            invariant
                i <= self.entries@.len(),
                forall|j: int| 0 <= j < i ==> !#[trigger] has_key(key@)(self@[j]),
            decreases self.entries@.len() - i,
        {
            if self.entries[i].0 == *key {
                return Some(i);
            }
            i += 1;
        }
        None
    }

    /// The value bound to `key`, if any.
    pub fn get(&self, key: &str) -> (r: Option<&String>)
        ensures
            match r {
                Some(v) => attribute_value(self@, key@) == Some(v@),
                None => attribute_value(self@, key@) is None,
            },
    {
        let k = key.to_owned();
        match self.position(&k) {
            Some(i) => {
                proof {
                    lemma_first_index_some(self@, has_key(key@), i as int);
                }
                Some(&self.entries[i].1)
            },
            None => {
                proof {
                    lemma_first_index_none(self@, has_key(key@));
                }
                None
            },
        }
    }

    /// Binds `key` to `value`. A key that is already bound keeps its place
    /// and gets the new value; a new key goes to the end.
    pub fn set(&mut self, key: &str, value: &str)
        ensures
            final(self)@ == with_attribute(old(self)@, key@, value@),
    {
        let k = key.to_owned();
        let v = value.to_owned();
        proof {
            use_type_invariant(&*self);
        }
        let found = self.position(&k);
        let mut entries: Vec<(String, String)> = Vec::new();
        core::mem::swap(&mut self.entries, &mut entries);
        match found {
            Some(i) => {
                proof {
                    lemma_first_index_some(old(self)@, has_key(key@), i as int);
                }
                entries.set(i, (k, v));
            },
            None => {
                proof {
                    lemma_first_index_none(old(self)@, has_key(key@));
                }
                entries.push((k, v));
            },
        }
        proof {
            assert(pairs_model(entries@) =~= with_attribute(old(self)@, key@, value@));
            lemma_with_attribute_distinct(old(self)@, key@, value@);
        }
        core::mem::swap(&mut self.entries, &mut entries);
    }
}

} // verus!
