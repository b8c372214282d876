//! Concatenating what a function gives for each element of a sequence.

use vstd::prelude::*;

verus! {

/// `f` of each element of `s`, concatenated in order.
pub open spec fn flat_map<A, B>(s: Seq<A>, f: spec_fn(A) -> Seq<B>) -> Seq<B>
    decreases s.len(),
{
    if s.len() == 0 {
        Seq::empty()
    } else {
        flat_map(s.drop_last(), f) + f(s.last())
    }
}

pub proof fn lemma_flat_map_single<A, B>(x: A, f: spec_fn(A) -> Seq<B>)
    ensures
        flat_map(seq![x], f) == f(x),
{
    assert(seq![x].drop_last() =~= Seq::<A>::empty());
    assert(flat_map(Seq::<A>::empty(), f) == Seq::<B>::empty());
    assert(Seq::<B>::empty() + f(x) =~= f(x));
}

pub proof fn lemma_flat_map_concat<A, B>(a: Seq<A>, b: Seq<A>, f: spec_fn(A) -> Seq<B>)
    ensures
        flat_map(a + b, f) == flat_map(a, f) + flat_map(b, f),
    decreases b.len(),
{
    if b.len() == 0 {
        assert(a + b =~= a);
        assert(flat_map(a, f) + Seq::<B>::empty() =~= flat_map(a, f));
    } else {
        assert((a + b).drop_last() =~= a + b.drop_last());
        assert((a + b).last() == b.last());
        lemma_flat_map_concat(a, b.drop_last(), f);
        assert(flat_map(a + b, f) =~= flat_map(a, f) + flat_map(b, f));
    }
}

pub proof fn lemma_flat_map_push<A, B>(a: Seq<A>, x: A, f: spec_fn(A) -> Seq<B>)
    ensures
        flat_map(a.push(x), f) == flat_map(a, f) + f(x),
{
    assert(a.push(x).drop_last() =~= a);
}

pub proof fn lemma_flat_map_prepend<A, B>(x: A, a: Seq<A>, f: spec_fn(A) -> Seq<B>)
    ensures
        flat_map(seq![x] + a, f) == f(x) + flat_map(a, f),
{
    lemma_flat_map_concat(seq![x], a, f);
    lemma_flat_map_single(x, f);
}

} // verus!
