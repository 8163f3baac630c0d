//! Pairs: each component is converted on its own.

use crate::contract::{publishes_as, reveals_to, shares_as, unwraps_to, NotPublic, Reveal};
use vstd::prelude::*;

verus! {

impl<A: Reveal, B: Reveal> Reveal for (A, B) {
    type Base = (A::Base, B::Base);

    /// Reveals the first component, then the second.
    fn revealed(self) -> (base: (A::Base, B::Base))
        ensures
            reveals_to(self.0, base.0),
            reveals_to(self.1, base.1),
    {
        (self.0.revealed(), self.1.revealed())
    }

    /// Wraps the first share, then the second.
    fn from_add_shared(other: (A::Base, B::Base)) -> (value: (A, B))
        ensures
            shares_as(other.0, value.0),
            shares_as(other.1, value.1),
    {
        (A::from_add_shared(other.0), B::from_add_shared(other.1))
    }

    /// Tags the first component as public, then the second.
    fn from_public(other: (A::Base, B::Base)) -> (value: (A, B))
        ensures
            publishes_as(other.0, value.0),
            publishes_as(other.1, value.1),
    {
        (A::from_public(other.0), B::from_public(other.1))
    }

    /// Unwraps the first component, then the second. A refusal of the first
    /// is returned before the second is looked at.
    fn unwrap_as_public(self) -> (r: Result<(A::Base, B::Base), NotPublic>)
        ensures
            match r {
                Ok(base) => unwraps_to(self.0, Ok(base.0)) && unwraps_to(self.1, Ok(base.1)),
                Err(e) => unwraps_to(self.0, Err(e)) || (unwraps_to(self.1, Err(e)) && exists|
                    x: A::Base,
                | unwraps_to(self.0, Ok(x))),
            },
    {
        let first = match self.0.unwrap_as_public() {
            Ok(x) => x,
            Err(e) => {
                return Err(e);
            },
        };
        assert(unwraps_to(self.0, Ok(first)));
        match self.1.unwrap_as_public() {
            Ok(y) => Ok((first, y)),
            Err(e) => Err(e),
        }
    }
}

} // verus!
