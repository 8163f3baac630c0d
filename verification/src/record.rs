//! Records: a record type lists its fields once, and its four operations are
//! those of the list.
//!
//! The list of a record with one field is that field; with more, the fields
//! are paired up to the right: `(a, (b, c))` for three. A pair converts each
//! of its components, so the list converts field by field, in order, whatever
//! the number of fields.

use crate::contract::{publishes_as, reveals_to, shares_as, unwraps_to, NotPublic, Reveal};
use vstd::prelude::*;

verus! {

/// A record type that can be taken apart into the list of its fields and put
/// together from one.
///
/// A record and its public form both implement this, with lists of the same
/// shape: the list of the public form is the `Base` of the record's list.
pub trait Record: Sized {
    /// The fields, in order.
    type Fields;

    /// Takes the record apart.
    fn into_fields(self) -> Self::Fields;

    /// Puts a record together.
    fn from_fields(fields: Self::Fields) -> Self;
}

/// `fields` is a list that [`Record::into_fields`] may return for `record`.
pub open spec fn splits_into<R: Record>(record: R, fields: R::Fields) -> bool {
    call_ensures(R::into_fields, (record,), fields)
}

/// `record` is a record that [`Record::from_fields`] may return for `fields`.
pub open spec fn builds<R: Record>(fields: R::Fields, record: R) -> bool {
    call_ensures(R::from_fields, (fields,), record)
}

/// Reveals a record: takes it apart, reveals the list of its fields, and puts
/// the public record together.
pub fn record_revealed<S, P>(record: S) -> (base: P) where
    S: Record,
    P: Record,
    S::Fields: Reveal<Base = P::Fields>,

    ensures
        exists|fields: S::Fields, bases: P::Fields|
            #![trigger splits_into(record, fields), builds(bases, base)]
            splits_into(record, fields) && reveals_to(fields, bases) && builds(bases, base),
{
    let fields = record.into_fields();
    let bases = fields.revealed();
    let base = P::from_fields(bases);
    assert(splits_into(record, fields) && builds(bases, base));
    base
}

/// Makes a record of shares: takes the record of locally known shares apart,
/// wraps the list of its fields, and puts the record together.
pub fn record_from_add_shared<S, P>(base: P) -> (record: S) where
    S: Record,
    P: Record,
    S::Fields: Reveal<Base = P::Fields>,

    ensures
        exists|bases: P::Fields, fields: S::Fields|
            #![trigger splits_into(base, bases), builds(fields, record)]
            splits_into(base, bases) && shares_as(bases, fields) && builds(fields, record),
{
    let bases = base.into_fields();
    let fields = <S::Fields>::from_add_shared(bases);
    let record = S::from_fields(fields);
    assert(splits_into(base, bases) && builds(fields, record));
    record
}

/// Makes a record in the public state: takes the public record apart, tags
/// the list of its fields, and puts the record together.
pub fn record_from_public<S, P>(base: P) -> (record: S) where
    S: Record,
    P: Record,
    S::Fields: Reveal<Base = P::Fields>,

    ensures
        exists|bases: P::Fields, fields: S::Fields|
            #![trigger splits_into(base, bases), builds(fields, record)]
            splits_into(base, bases) && publishes_as(bases, fields) && builds(fields, record),
{
    let bases = base.into_fields();
    let fields = <S::Fields>::from_public(bases);
    let record = S::from_fields(fields);
    assert(splits_into(base, bases) && builds(fields, record));
    record
}

/// Unwraps a record that is already public: takes it apart and unwraps the
/// list of its fields. The refusal of a field is the refusal of the record;
/// otherwise the public record is put together.
pub fn record_unwrap_as_public<S, P>(record: S) -> (r: Result<P, NotPublic>) where
    S: Record,
    P: Record,
    S::Fields: Reveal<Base = P::Fields>,

    ensures
        exists|fields: S::Fields, outcome: Result<P::Fields, NotPublic>|
            #![trigger splits_into(record, fields), unwraps_to(fields, outcome)]
            splits_into(record, fields) && unwraps_to(fields, outcome) && match outcome {
                Ok(bases) => r matches Ok(base) && builds(bases, base),
                Err(refusal) => r == Err::<P, NotPublic>(refusal),
            },
{
    let fields = record.into_fields();
    assert(splits_into(record, fields));
    let outcome = fields.unwrap_as_public();
    assert(unwraps_to(fields, outcome));
    match outcome {
        Ok(bases) => {
            let base = P::from_fields(bases);
            assert(builds(bases, base));
            Ok(base)
        },
        Err(refusal) => Err(refusal),
    }
}

/// Revealing the list of three fields reveals each field.
pub proof fn lemma_three_fields_revealed<A: Reveal, B: Reveal, C: Reveal>(
    fields: (A, (B, C)),
    bases: (A::Base, (B::Base, C::Base)),
)
    requires
        reveals_to(fields, bases),
    ensures
        reveals_to(fields.0, bases.0),
        reveals_to(fields.1.0, bases.1.0),
        reveals_to(fields.1.1, bases.1.1),
{
    assert(reveals_to(fields.1, bases.1));
}

/// Wrapping the list of three shares wraps each share.
pub proof fn lemma_three_fields_shared<A: Reveal, B: Reveal, C: Reveal>(
    bases: (A::Base, (B::Base, C::Base)),
    fields: (A, (B, C)),
)
    requires
        shares_as(bases, fields),
    ensures
        shares_as(bases.0, fields.0),
        shares_as(bases.1.0, fields.1.0),
        shares_as(bases.1.1, fields.1.1),
{
    assert(shares_as(bases.1, fields.1));
}

/// Tagging the list of three fields as public tags each field.
pub proof fn lemma_three_fields_published<A: Reveal, B: Reveal, C: Reveal>(
    bases: (A::Base, (B::Base, C::Base)),
    fields: (A, (B, C)),
)
    requires
        publishes_as(bases, fields),
    ensures
        publishes_as(bases.0, fields.0),
        publishes_as(bases.1.0, fields.1.0),
        publishes_as(bases.1.1, fields.1.1),
{
    assert(publishes_as(bases.1, fields.1));
}

/// Unwrapping the list of three fields unwraps each field, where the list is
/// accepted.
pub proof fn lemma_three_fields_unwrapped<A: Reveal, B: Reveal, C: Reveal>(
    fields: (A, (B, C)),
    bases: (A::Base, (B::Base, C::Base)),
)
    requires
        unwraps_to(fields, Ok(bases)),
    ensures
        unwraps_to(fields.0, Ok(bases.0)),
        unwraps_to(fields.1.0, Ok(bases.1.0)),
        unwraps_to(fields.1.1, Ok(bases.1.1)),
{
    assert(unwraps_to(fields.1, Ok(bases.1)));
}

} // verus!
