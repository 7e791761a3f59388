//! An insertion-ordered set of names.

use indexmap::IndexSet;
use std::hash::RandomState;
use crate::text::views;
use vstd::prelude::*;

verus! {

#[verifier::external_type_specification]
#[verifier::external_body]
#[verifier::reject_recursive_types(T)]
#[verifier::reject_recursive_types(H)]
pub struct ExIndexSet<T, H>(IndexSet<T, H>);

/// The names that a set holds, in the order in which they were first inserted.
pub uninterp spec fn name_seq(s: IndexSet<String, RandomState>) -> Seq<Seq<char>>;

/// `names` with `n` at its end, unless it holds `n` already.
pub open spec fn noted(names: Seq<Seq<char>>, n: Seq<char>) -> Seq<Seq<char>> {
    if names.contains(n) {
        names
    } else {
        names.push(n)
    }
}

/// The names of `s` without repetitions, each at the place of its first occurrence.
pub open spec fn distinct(s: Seq<Seq<char>>) -> Seq<Seq<char>>
    decreases s.len(),
{
    if s.len() == 0 {
        Seq::empty()
    } else {
        noted(distinct(s.drop_last()), s.last())
    }
}

/// `IndexSet::new`: a new set holds nothing.
#[verifier::external_body]
pub(crate) fn name_set_new() -> (s: IndexSet<String, RandomState>)
    ensures
        name_seq(s) == Seq::<Seq<char>>::empty(),
{
    IndexSet::new()
}

/// `IndexSet::insert`: a name that the set holds already leaves the set and its order
/// as they are; a new name goes to the end. The result tells whether the name was new.
#[verifier::external_body]
pub(crate) fn name_set_insert(s: &mut IndexSet<String, RandomState>, name: String) -> (fresh: bool)
    ensures
        name_seq(*final(s)) == noted(name_seq(*old(s)), name@),
        fresh == !name_seq(*old(s)).contains(name@),
{
    s.insert(name)
}

/// `IndexSet::iter`, each name copied: the names in the order of the set.
#[verifier::external_body]
pub(crate) fn name_set_to_vec(s: &IndexSet<String, RandomState>) -> (v: Vec<String>)
    ensures
        views(v@) == name_seq(*s),
{
    s.iter().cloned().collect()
}

/// A name is among the distinct names exactly when it is among the names.
pub proof fn lemma_distinct_contains(s: Seq<Seq<char>>, n: Seq<char>)
    ensures
        distinct(s).contains(n) <==> s.contains(n),
    decreases s.len(),
{
    if s.len() > 0 {
        let init = s.drop_last();
        let x = s.last();
        let d = distinct(init);
        lemma_distinct_contains(init, n);
        lemma_distinct_contains(init, x);
        if distinct(s).contains(n) {
            let k = choose|k: int| 0 <= k < distinct(s).len() && distinct(s)[k] == n;
            if d.contains(x) || k < d.len() {
                assert(d.contains(n)) by {
                    if !d.contains(x) {
                        assert(d[k] == n);
                    }
                }
                let j = choose|j: int| 0 <= j < init.len() && init[j] == n;
                assert(s[j] == n);
            } else {
                assert(s[s.len() - 1] == n);
            }
        }
        if s.contains(n) {
            let k = choose|k: int| 0 <= k < s.len() && s[k] == n;
            if k < s.len() - 1 {
                assert(init[k] == n);
                let j = choose|j: int| 0 <= j < d.len() && d[j] == n;
                assert(noted(d, x)[j] == n);
            } else {
                if d.contains(x) {
                } else {
                    assert(d.push(x)[d.len() as int] == n);
                }
            }
        }
    }
}

/// No name stands twice among the distinct names.
pub proof fn lemma_distinct_no_duplicates(s: Seq<Seq<char>>)
    ensures
        distinct(s).no_duplicates(),
    decreases s.len(),
{
    if s.len() > 0 {
        lemma_distinct_no_duplicates(s.drop_last());
    }
}

} // verus!
