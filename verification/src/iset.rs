//! Insertion-ordered adjacency sets, backed by `indexmap`.
//!
//! The graph stores each node's neighbours in an [`indexmap::IndexSet`]: a
//! set that remembers insertion order, which is what makes gathering and
//! scheduling deterministic. Verus sees the set through the uninterpreted
//! contents function [`iset_elems`] — the sequence of stored values in
//! insertion order — and through the small trusted wrappers below, each of
//! which states exactly what `indexmap` documents for the one method it
//! calls.

use vstd::prelude::*;
use indexmap::IndexSet;
use std::collections::hash_map::RandomState;

verus! {

#[verifier::external_type_specification]
#[verifier::external_body]
#[verifier::reject_recursive_types(T)]
#[verifier::reject_recursive_types(S)]
pub struct ExIndexSet<T, S>(IndexSet<T, S>);

/// The values an adjacency set holds, in insertion order.
pub uninterp spec fn iset_elems(s: IndexSet<usize, RandomState>) -> Seq<usize>;

/// Relies on indexmap's `IndexSet::with_capacity`: creates an empty set.
#[verifier::external_body]
pub(crate) fn iset_with_capacity(n: usize) -> (s: IndexSet<usize, RandomState>)
    ensures
        iset_elems(s) == Seq::<usize>::empty(),
{
    IndexSet::with_capacity(n)
}

/// Relies on indexmap's `IndexSet::len`: the number of stored values.
#[verifier::external_body]
pub(crate) fn iset_len(s: &IndexSet<usize, RandomState>) -> (n: usize)
    ensures
        n == iset_elems(*s).len(),
{
    s.len()
}

/// Relies on indexmap's `IndexSet::insert`: appends a missing value at the
/// end of the insertion order, leaves a present value and the order alone,
/// and returns whether the value was missing.
#[verifier::external_body]
pub(crate) fn iset_insert(s: &mut IndexSet<usize, RandomState>, v: usize) -> (added: bool)
    ensures
        added == !iset_elems(*old(s)).contains(v),
        iset_elems(*final(s)) == if iset_elems(*old(s)).contains(v) {
            iset_elems(*old(s))
        } else {
            iset_elems(*old(s)).push(v)
        },
{
    s.insert(v)
}

/// Relies on indexmap's `IndexSet::get_index`: the value at position `i` of
/// the insertion order, which exists for every `i` below the length.
#[verifier::external_body]
pub(crate) fn iset_get(s: &IndexSet<usize, RandomState>, i: usize) -> (v: usize)
    requires
        i < iset_elems(*s).len(),
    ensures
        v == iset_elems(*s)[i as int],
{
    *s.get_index(i).unwrap()
}

/// Relies on indexmap's `IndexSet::pop`: removes and returns the last value
/// of the insertion order, preserving the order of the rest.
#[verifier::external_body]
pub(crate) fn iset_pop(s: &mut IndexSet<usize, RandomState>) -> (r: Option<usize>)
    ensures
        match r {
            Some(v) => {
                &&& iset_elems(*old(s)).len() > 0
                &&& v == iset_elems(*old(s)).last()
                &&& iset_elems(*final(s)) == iset_elems(*old(s)).drop_last()
            },
            None => {
                &&& iset_elems(*old(s)).len() == 0
                &&& iset_elems(*final(s)) == iset_elems(*old(s))
            },
        },
{
    s.pop()
}

} // verus!
