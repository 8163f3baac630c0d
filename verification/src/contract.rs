//! The conversion contract and the relations that describe its operations.

use vstd::prelude::*;

verus! {

/// The failure of [`Reveal::unwrap_as_public`]: the value's type gives no way
/// to read it as public without revealing it.
#[derive(Debug, Clone, Copy, PartialEq, Eq, Structural)]
pub struct NotPublic;

/// A type whose values can be moved between a shared and a public
/// representation.
///
/// `Base` is the public representation of the same logical value; it has the
/// shape of `Self`. All four operations consume their argument.
///
/// The trait states nothing about a leaf type's operations: what they return
/// is the business of the sharing scheme behind them. The composite
/// implementations of this crate are specified relative to them, through
/// [`reveals_to`], [`shares_as`], [`publishes_as`] and [`unwraps_to`].
pub trait Reveal: Sized {
    /// The public form of `Self`.
    type Base;

    /// Converts a possibly shared value into its public form.
    fn revealed(self) -> Self::Base;

    /// Wraps a locally known additive share.
    fn from_add_shared(b: Self::Base) -> Self;

    /// Tags a public value as a value of this type in the public state.
    fn from_public(b: Self::Base) -> Self;

    /// Takes a value that is already public out of its wrapping, without
    /// revealing anything. A type that does not provide this operation
    /// refuses every value.
    fn unwrap_as_public(self) -> (r: Result<Self::Base, NotPublic>)
        default_ensures
            r is Err,
    {
        Err(NotPublic)
    }
}

/// `base` is a public form that [`Reveal::revealed`] may return for `value`.
pub open spec fn reveals_to<T: Reveal>(value: T, base: T::Base) -> bool {
    call_ensures(T::revealed, (value,), base)
}

/// `value` is a share that [`Reveal::from_add_shared`] may return for `base`.
pub open spec fn shares_as<T: Reveal>(base: T::Base, value: T) -> bool {
    call_ensures(T::from_add_shared, (base,), value)
}

/// `value` is a tagged value that [`Reveal::from_public`] may return for `base`.
pub open spec fn publishes_as<T: Reveal>(base: T::Base, value: T) -> bool {
    call_ensures(T::from_public, (base,), value)
}

/// `r` is an outcome that [`Reveal::unwrap_as_public`] may return for `value`.
pub open spec fn unwraps_to<T: Reveal>(value: T, r: Result<T::Base, NotPublic>) -> bool {
    call_ensures(T::unwrap_as_public, (value,), r)
}

} // verus!
