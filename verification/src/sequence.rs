//! Sequences: the conversion of every element, in order.

use crate::contract::{publishes_as, reveals_to, shares_as, unwraps_to, NotPublic, Reveal};
use crate::shape::{pairwise, pairwise_or_first_refusal};
use vstd::prelude::*;

verus! {

/// Applies `f` to every element of `v`, in order.
pub(crate) fn map_vec<A, B, F: Fn(A) -> B>(v: Vec<A>, f: F) -> (out: Vec<B>)
    requires
        forall|i: int| 0 <= i < v@.len() ==> call_requires(f, (#[trigger] v@[i],)),
    ensures
        pairwise(v@, out@, |x: A, y: B| call_ensures(f, (x,), y)),
{
    let mut out: Vec<B> = Vec::new();
    for x in it: v
        invariant
            forall|i: int| 0 <= i < it.seq().len() ==> call_requires(f, (#[trigger] it.seq()[i],)),
            out@.len() == it.index(),
            forall|i: int|
                0 <= i < out@.len() ==> call_ensures(f, (#[trigger] it.seq()[i],), out@[i]),
    {
        out.push(f(x));
    }
    out
}

/// The outcome of a fallible conversion of a sequence, with the converted
/// sequence seen as a `Seq`.
pub open spec fn seq_outcome<B, E>(r: Result<Vec<B>, E>) -> Result<Seq<B>, E> {
    match r {
        Ok(out) => Ok(out@),
        Err(e) => Err(e),
    }
}

/// Applies `f` to the elements of `v` in order, up to the first one that it
/// refuses.
pub(crate) fn try_map_vec<A, B, E, F: Fn(A) -> Result<B, E>>(v: Vec<A>, f: F) -> (r: Result<
    Vec<B>,
    E,
>)
    requires
        forall|i: int| 0 <= i < v@.len() ==> call_requires(f, (#[trigger] v@[i],)),
    ensures
        pairwise_or_first_refusal(
            v@,
            seq_outcome(r),
            |x: A, o: Result<B, E>| call_ensures(f, (x,), o),
        ),
{
    let mut out: Vec<B> = Vec::new();
    for x in it: v
        invariant
            forall|i: int| 0 <= i < it.seq().len() ==> call_requires(f, (#[trigger] it.seq()[i],)),
            out@.len() == it.index(),
            forall|i: int|
                0 <= i < out@.len() ==> call_ensures(
                    f,
                    (#[trigger] it.seq()[i],),
                    Ok::<B, E>(out@[i]),
                ),
    {
        match f(x) {
            Ok(y) => {
                out.push(y);
            },
            Err(e) => {
                proof {
                    let t = out@;
                    assert(it.seq().take(t.len() as int).len() == t.len());
                }
                return Err(e);
            },
        }
    }
    Ok(out)
}

impl<T: Reveal> Reveal for Vec<T> {
    type Base = Vec<T::Base>;

    /// Reveals every element, in order.
    fn revealed(self) -> (base: Vec<T::Base>)
        ensures
            pairwise(self@, base@, |x: T, y: T::Base| reveals_to(x, y)),
    {
        map_vec(self, T::revealed)
    }

    /// Wraps every share, in order.
    fn from_add_shared(other: Vec<T::Base>) -> (value: Vec<T>)
        ensures
            pairwise(other@, value@, |y: T::Base, x: T| shares_as(y, x)),
    {
        map_vec(other, T::from_add_shared)
    }

    /// Tags every element as public, in order.
    fn from_public(other: Vec<T::Base>) -> (value: Vec<T>)
        ensures
            pairwise(other@, value@, |y: T::Base, x: T| publishes_as(y, x)),
    {
        map_vec(other, T::from_public)
    }

    /// Unwraps every element, in order, and stops at the first one that
    /// is refused.
    fn unwrap_as_public(self) -> (r: Result<Vec<T::Base>, NotPublic>)
        ensures
            pairwise_or_first_refusal(
                self@,
                seq_outcome(r),
                |x: T, o: Result<T::Base, NotPublic>| unwraps_to(x, o),
            ),
    {
        try_map_vec(self, T::unwrap_as_public)
    }
}

} // verus!
