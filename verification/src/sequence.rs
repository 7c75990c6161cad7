//! Sequences that are built item by item by a computation that can fail.

use vstd::prelude::*;

verus! {

/// `pre` before what `r` holds, or the error of `r`.
pub open spec fn after<T, E>(pre: Seq<T>, r: Result<Seq<T>, E>) -> Result<Seq<T>, E> {
    match r {
        Ok(rest) => Ok(pre + rest),
        Err(e) => Err(e),
    }
}

/// Whether an outcome in executable form is the outcome that the model
/// gives.
pub open spec fn gives<T: DeepView, E>(r: Result<T, E>, model: Result<T::V, E>) -> bool {
    match r {
        Ok(x) => model == Ok::<T::V, E>(x.deep_view()),
        Err(e) => model == Err::<T::V, E>(e),
    }
}

/// Nothing before an outcome leaves it as it is.
pub proof fn lemma_after_start<T, E>(r: Result<Seq<T>, E>)
    ensures
        after(Seq::<T>::empty(), r) == r,
{
    if r is Ok {
        assert(Seq::<T>::empty() + r->Ok_0 =~= r->Ok_0);
    }
}

/// One item before an outcome, after a prefix, is the prefix with the item
/// before the outcome.
pub proof fn lemma_after_step<T, E>(pre: Seq<T>, x: T, r: Result<Seq<T>, E>)
    ensures
        after(pre, after(seq![x], r)) == after(pre.push(x), r),
{
    if r is Ok {
        assert(pre + (seq![x] + r->Ok_0) =~= pre.push(x) + r->Ok_0);
    }
}

/// Several items before an outcome, after a prefix.
pub proof fn lemma_after_part<T, E>(pre: Seq<T>, part: Seq<T>, r: Result<Seq<T>, E>)
    ensures
        after(pre, after(part, r)) == after(pre + part, r),
{
    if r is Ok {
        assert(pre + (part + r->Ok_0) =~= (pre + part) + r->Ok_0);
    }
}

/// A prefix before nothing is the prefix.
pub proof fn lemma_after_end<T, E>(pre: Seq<T>)
    ensures
        after(pre, Ok::<Seq<T>, E>(Seq::empty())) == Ok::<Seq<T>, E>(pre),
{
    assert(pre + Seq::<T>::empty() =~= pre);
}

} // verus!
