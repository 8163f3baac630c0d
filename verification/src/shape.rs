//! Relations between two collections of the same shape.

use vstd::prelude::*;

verus! {

/// `t` has the length of `s`, and `rel` holds between the elements at each
/// position.
pub open spec fn pairwise<A, B>(s: Seq<A>, t: Seq<B>, rel: spec_fn(A, B) -> bool) -> bool {
    &&& s.len() == t.len()
    &&& forall|i: int| 0 <= i < s.len() ==> rel(#[trigger] s[i], t[i])
}

/// The outcome `r` of converting the elements of `s` in order with a
/// conversion that may refuse an element: either every element was converted,
/// or the elements before the first refused one were converted to some `t`
/// and `r` is the refusal of that element.
///
/// `rel(x, o)` says that `o` is a possible outcome for the element `x`.
pub open spec fn pairwise_or_first_refusal<A, B, E>(
    s: Seq<A>,
    r: Result<Seq<B>, E>,
    rel: spec_fn(A, Result<B, E>) -> bool,
) -> bool {
    match r {
        Ok(t) => pairwise(s, t, |x: A, y: B| rel(x, Ok(y))),
        Err(e) => exists|t: Seq<B>|
            #![trigger t.len()]
            {
                &&& t.len() < s.len()
                &&& pairwise(s.take(t.len() as int), t, |x: A, y: B| rel(x, Ok(y)))
                &&& rel(s[t.len() as int], Err(e))
            },
    }
}

} // verus!
