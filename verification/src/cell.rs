//! Shared-ownership cells: the pointee is duplicated, the duplicate converted,
//! and the result put into a fresh cell.

use crate::contract::{publishes_as, reveals_to, shares_as, unwraps_to, NotPublic, Reveal};
use ark_std::rc::Rc;
use vstd::prelude::*;

verus! {

/// A cell may have other holders, so its pointee cannot be moved out: each
/// operation works on a clone of it. What the clone is, is up to the
/// pointee's `Clone`, of which the contracts say only that it was called.
impl<T: Reveal + Clone> Reveal for Rc<T> where T::Base: Clone {
    type Base = Rc<T::Base>;

    /// Reveals a clone of the pointee.
    fn revealed(self) -> (base: Rc<T::Base>)
        ensures
            exists|copy: T| #[trigger] cloned::<T>(*self, copy) && reveals_to(copy, *base),
    {
        let copy = (*self).clone();
        assert(cloned::<T>(*self, copy));
        Rc::new(copy.revealed())
    }

    /// Wraps a clone of the share.
    fn from_add_shared(other: Rc<T::Base>) -> (value: Rc<T>)
        ensures
            exists|copy: T::Base| #[trigger]
                cloned::<T::Base>(*other, copy) && shares_as(copy, *value),
    {
        let copy = (*other).clone();
        assert(cloned::<T::Base>(*other, copy));
        Rc::new(T::from_add_shared(copy))
    }

    /// Tags a clone of the public value.
    fn from_public(other: Rc<T::Base>) -> (value: Rc<T>)
        ensures
            exists|copy: T::Base| #[trigger]
                cloned::<T::Base>(*other, copy) && publishes_as(copy, *value),
    {
        let copy = (*other).clone();
        assert(cloned::<T::Base>(*other, copy));
        Rc::new(T::from_public(copy))
    }

    /// Unwraps a clone of the pointee.
    fn unwrap_as_public(self) -> (r: Result<Rc<T::Base>, NotPublic>)
        ensures
            exists|copy: T| #[trigger]
                cloned::<T>(*self, copy) && match r {
                    Ok(base) => unwraps_to(copy, Ok(*base)),
                    Err(e) => unwraps_to(copy, Err(e)),
                },
    {
        let copy = (*self).clone();
        assert(cloned::<T>(*self, copy));
        match copy.unwrap_as_public() {
            Ok(base) => Ok(Rc::new(base)),
            Err(e) => Err(e),
        }
    }
}

} // verus!
