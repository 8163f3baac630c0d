//! Optional values: absence is kept, a present value is converted.

use crate::contract::{publishes_as, reveals_to, shares_as, unwraps_to, NotPublic, Reveal};
use vstd::prelude::*;

verus! {

/// `t` is absent where `s` is, and where `s` holds a value, `t` holds one that
/// `rel` relates to it.
pub open spec fn optionally<A, B>(s: Option<A>, t: Option<B>, rel: spec_fn(A, B) -> bool) -> bool {
    match s {
        None => t is None,
        Some(x) => t matches Some(y) && rel(x, y),
    }
}

impl<T: Reveal> Reveal for Option<T> {
    type Base = Option<T::Base>;

    /// Reveals the value, if there is one.
    fn revealed(self) -> (base: Option<T::Base>)
        ensures
            optionally(self, base, |x: T, y: T::Base| reveals_to(x, y)),
    {
        self.map(T::revealed)
    }

    /// Wraps the share, if there is one.
    fn from_add_shared(other: Option<T::Base>) -> (value: Option<T>)
        ensures
            optionally(other, value, |y: T::Base, x: T| shares_as(y, x)),
    {
        other.map(T::from_add_shared)
    }

    /// Tags the value as public, if there is one.
    fn from_public(other: Option<T::Base>) -> (value: Option<T>)
        ensures
            optionally(other, value, |y: T::Base, x: T| publishes_as(y, x)),
    {
        other.map(T::from_public)
    }

    /// Unwraps the value, if there is one; nothing is always public.
    fn unwrap_as_public(self) -> (r: Result<Option<T::Base>, NotPublic>)
        ensures
            match self {
                None => r == Ok::<Option<T::Base>, NotPublic>(None),
                Some(x) => match r {
                    Ok(base) => base matches Some(y) && unwraps_to(x, Ok(y)),
                    Err(e) => unwraps_to(x, Err(e)),
                },
            },
    {
        match self {
            None => Ok(None),
            Some(x) => match x.unwrap_as_public() {
                Ok(y) => Ok(Some(y)),
                Err(e) => Err(e),
            },
        }
    }
}

} // verus!
