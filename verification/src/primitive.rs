//! Leaf types that are never secret: plain indices and marker types.

use crate::contract::{NotPublic, Reveal};
use ark_std::marker::PhantomData;
use vstd::prelude::*;

verus! {

/// An index or a length is its own public form: every operation is the
/// identity.
impl Reveal for usize {
    type Base = usize;

    fn revealed(self) -> (base: usize)
        ensures
            base == self,
    {
        self
    }

    fn from_add_shared(b: usize) -> (value: usize)
        ensures
            value == b,
    {
        b
    }

    fn from_public(b: usize) -> (value: usize)
        ensures
            value == b,
    {
        b
    }

    fn unwrap_as_public(self) -> (r: Result<usize, NotPublic>)
        ensures
            r == Ok::<usize, NotPublic>(self),
    {
        Ok(self)
    }
}

/// A marker carries no data: it converts to the marker of the other
/// representation, and is always public.
impl<T: Reveal> Reveal for PhantomData<T> {
    type Base = PhantomData<T::Base>;

    fn revealed(self) -> (base: PhantomData<T::Base>)
        ensures
            base == PhantomData::<T::Base>,
    {
        PhantomData
    }

    fn from_add_shared(_b: PhantomData<T::Base>) -> (value: PhantomData<T>)
        ensures
            value == PhantomData::<T>,
    {
        PhantomData
    }

    fn from_public(_b: PhantomData<T::Base>) -> (value: PhantomData<T>)
        ensures
            value == PhantomData::<T>,
    {
        PhantomData
    }

    fn unwrap_as_public(self) -> (r: Result<PhantomData<T::Base>, NotPublic>)
        ensures
            r == Ok::<PhantomData<T::Base>, NotPublic>(PhantomData),
    {
        Ok(PhantomData)
    }
}

} // verus!
