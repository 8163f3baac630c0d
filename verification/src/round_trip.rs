//! What is tagged as public comes back the same, whether it is unwrapped or
//! revealed.
//!
//! Two public values are compared by a relation `same` that is handed in: a
//! leaf type is compared as its author sees fit, and a composite type by the
//! comparison of its parts. The laws of the composite types hold where those
//! of their parts do.

use crate::contract::{publishes_as, reveals_to, unwraps_to, NotPublic, Reveal};
use crate::optional::optionally;
use crate::ordered_map::{
    all_entries, collected, entries_converted, entries_converted_or_first_refusal,
    leading_entries, lemma_collected_value, lemma_there_and_back, map_outcome, same_values,
};
use crate::shape::pairwise;
use ark_std::collections::BTreeMap;
use ark_std::marker::PhantomData;
use ark_std::rc::Rc;
use vstd::laws_cmp::obeys_cmp;
use vstd::prelude::*;

verus! {

/// Whatever `from_public` makes of a public value, `unwrap_as_public`
/// accepts, and returns a value that is the `same` as the one that was
/// tagged.
pub open spec fn round_trips<T: Reveal>(same: spec_fn(T::Base, T::Base) -> bool) -> bool {
    forall|base: T::Base, value: T, r: Result<T::Base, NotPublic>|
        #![trigger publishes_as(base, value), unwraps_to(value, r)]
        publishes_as(base, value) && unwraps_to(value, r) ==> (r matches Ok(back) && same(
            base,
            back,
        ))
}

/// Whatever `from_public` makes of a public value reveals to a value that is
/// the `same` as the one that was tagged.
pub open spec fn reveal_undoes_tagging<T: Reveal>(same: spec_fn(T::Base, T::Base) -> bool) -> bool {
    forall|base: T::Base, value: T, back: T::Base|
        #![trigger publishes_as(base, value), reveals_to(value, back)]
        publishes_as(base, value) && reveals_to(value, back) ==> same(base, back)
}

/// The equality of two public values.
pub open spec fn equal<B>() -> spec_fn(B, B) -> bool {
    |a: B, b: B| a == b
}

/// The comparison of two sequences by the comparison of their elements.
pub open spec fn same_elements<B>(same: spec_fn(B, B) -> bool) -> spec_fn(Vec<B>, Vec<B>) -> bool {
    |a: Vec<B>, b: Vec<B>| pairwise(a@, b@, same)
}

/// The comparison of two optional values by the comparison of what they hold.
pub open spec fn same_optional<B>(same: spec_fn(B, B) -> bool) -> spec_fn(
    Option<B>,
    Option<B>,
) -> bool {
    |a: Option<B>, b: Option<B>| optionally(a, b, same)
}

/// The comparison of two pairs by the comparisons of their components.
pub open spec fn same_components<A, B>(
    same_first: spec_fn(A, A) -> bool,
    same_second: spec_fn(B, B) -> bool,
) -> spec_fn((A, B), (A, B)) -> bool {
    |a: (A, B), b: (A, B)| same_first(a.0, b.0) && same_second(a.1, b.1)
}

/// The comparison of two cells by the comparison of their pointees.
pub open spec fn same_pointee<B>(same: spec_fn(B, B) -> bool) -> spec_fn(Rc<B>, Rc<B>) -> bool {
    |a: Rc<B>, b: Rc<B>| same(*a, *b)
}

/// The comparison of two maps: the same keys, and for each key values that
/// compare as the same.
pub open spec fn same_entries<K, B>(same: spec_fn(B, B) -> bool) -> spec_fn(
    BTreeMap<K, B>,
    BTreeMap<K, B>,
) -> bool {
    |a: BTreeMap<K, B>, b: BTreeMap<K, B>| same_values(a@, b@, same)
}

/// An index comes back equal when it is unwrapped.
pub proof fn lemma_index_round_trips()
    ensures
        round_trips::<usize>(equal()),
{
}

/// An index comes back equal when it is revealed.
pub proof fn lemma_index_reveal_undoes_tagging()
    ensures
        reveal_undoes_tagging::<usize>(equal()),
{
}

/// A marker is accepted when it is unwrapped; there is nothing in it to
/// compare.
pub proof fn lemma_marker_round_trips<T: Reveal>()
    ensures
        round_trips::<PhantomData<T>>(|a: PhantomData<T::Base>, b: PhantomData<T::Base>| true),
{
}

/// A marker reveals to a marker; there is nothing in it to compare.
pub proof fn lemma_marker_reveal_undoes_tagging<T: Reveal>()
    ensures
        reveal_undoes_tagging::<PhantomData<T>>(
            |a: PhantomData<T::Base>, b: PhantomData<T::Base>| true,
        ),
{
}

/// A sequence comes back with the same length, and the same element at each
/// position, where its elements come back the same.
pub proof fn lemma_sequence_round_trips<T: Reveal>(same: spec_fn(T::Base, T::Base) -> bool)
    requires
        round_trips::<T>(same),
    ensures
        round_trips::<Vec<T>>(same_elements(same)),
{
    assert forall|base: Vec<T::Base>, value: Vec<T>, r: Result<Vec<T::Base>, NotPublic>|
        #![trigger publishes_as(base, value), unwraps_to(value, r)]
        publishes_as(base, value) && unwraps_to(value, r) implies (r matches Ok(back)
        && same_elements(same)(base, back)) by {
        match r {
            Ok(back) => {
                assert forall|i: int| 0 <= i < base@.len() implies same(
                    #[trigger] base@[i],
                    back@[i],
                ) by {
                    assert(publishes_as(base@[i], value@[i]));
                    assert(unwraps_to(value@[i], Ok(back@[i])));
                }
            },
            Err(e) => {
                let t = choose|t: Seq<T::Base>|
                    #![trigger t.len()]
                    t.len() < value@.len() && unwraps_to(value@[t.len() as int], Err(e));
                let n = t.len() as int;
                assert(publishes_as(base@[n], value@[n]));
            },
        }
    }
}

/// A revealed sequence has the length of the one that was tagged, and the
/// same element at each position, where its elements reveal to the same.
pub proof fn lemma_sequence_reveal_undoes_tagging<T: Reveal>(
    same: spec_fn(T::Base, T::Base) -> bool,
)
    requires
        reveal_undoes_tagging::<T>(same),
    ensures
        reveal_undoes_tagging::<Vec<T>>(same_elements(same)),
{
    assert forall|base: Vec<T::Base>, value: Vec<T>, back: Vec<T::Base>|
        #![trigger publishes_as(base, value), reveals_to(value, back)]
        publishes_as(base, value) && reveals_to(value, back) implies same_elements(same)(
        base,
        back,
    ) by {
        assert forall|i: int| 0 <= i < base@.len() implies same(#[trigger] base@[i], back@[i]) by {
            assert(publishes_as(base@[i], value@[i]));
            assert(reveals_to(value@[i], back@[i]));
        }
    }
}

/// An optional value comes back absent where it was absent, and the same
/// where its value comes back the same.
pub proof fn lemma_optional_round_trips<T: Reveal>(same: spec_fn(T::Base, T::Base) -> bool)
    requires
        round_trips::<T>(same),
    ensures
        round_trips::<Option<T>>(same_optional(same)),
{
    assert forall|base: Option<T::Base>, value: Option<T>, r: Result<Option<T::Base>, NotPublic>|
        #![trigger publishes_as(base, value), unwraps_to(value, r)]
        publishes_as(base, value) && unwraps_to(value, r) implies (r matches Ok(back)
        && same_optional(same)(base, back)) by {
        if let Some(b) = base {
            let v = value->Some_0;
            assert(publishes_as(b, v));
            match r {
                Ok(back) => {
                    assert(unwraps_to(v, Ok(back->Some_0)));
                },
                Err(e) => {
                    assert(unwraps_to(v, Err(e)));
                },
            }
        }
    }
}

/// A revealed optional value is absent where the tagged one was, and the
/// same where its value reveals to the same.
pub proof fn lemma_optional_reveal_undoes_tagging<T: Reveal>(
    same: spec_fn(T::Base, T::Base) -> bool,
)
    requires
        reveal_undoes_tagging::<T>(same),
    ensures
        reveal_undoes_tagging::<Option<T>>(same_optional(same)),
{
    assert forall|base: Option<T::Base>, value: Option<T>, back: Option<T::Base>|
        #![trigger publishes_as(base, value), reveals_to(value, back)]
        publishes_as(base, value) && reveals_to(value, back) implies same_optional(same)(
        base,
        back,
    ) by {
        if let Some(b) = base {
            let v = value->Some_0;
            assert(publishes_as(b, v));
            assert(reveals_to(v, back->Some_0));
        }
    }
}

/// A pair comes back with both components the same, where each component
/// comes back the same.
pub proof fn lemma_pair_round_trips<A: Reveal, B: Reveal>(
    same_first: spec_fn(A::Base, A::Base) -> bool,
    same_second: spec_fn(B::Base, B::Base) -> bool,
)
    requires
        round_trips::<A>(same_first),
        round_trips::<B>(same_second),
    ensures
        round_trips::<(A, B)>(same_components(same_first, same_second)),
{
    assert forall|
        base: (A::Base, B::Base),
        value: (A, B),
        r: Result<(A::Base, B::Base), NotPublic>,
    |
        #![trigger publishes_as(base, value), unwraps_to(value, r)]
        publishes_as(base, value) && unwraps_to(value, r) implies (r matches Ok(back)
        && same_components(same_first, same_second)(base, back)) by {
        assert(publishes_as(base.0, value.0));
        assert(publishes_as(base.1, value.1));
        match r {
            Ok(back) => {
                assert(unwraps_to(value.0, Ok(back.0)));
                assert(unwraps_to(value.1, Ok(back.1)));
            },
            Err(e) => {
                if unwraps_to(value.0, Err(e)) {
                } else {
                    assert(unwraps_to(value.1, Err(e)));
                }
            },
        }
    }
}

/// A revealed pair has both components the same as the tagged one, where
/// each component reveals to the same.
pub proof fn lemma_pair_reveal_undoes_tagging<A: Reveal, B: Reveal>(
    same_first: spec_fn(A::Base, A::Base) -> bool,
    same_second: spec_fn(B::Base, B::Base) -> bool,
)
    requires
        reveal_undoes_tagging::<A>(same_first),
        reveal_undoes_tagging::<B>(same_second),
    ensures
        reveal_undoes_tagging::<(A, B)>(same_components(same_first, same_second)),
{
    assert forall|base: (A::Base, B::Base), value: (A, B), back: (A::Base, B::Base)|
        #![trigger publishes_as(base, value), reveals_to(value, back)]
        publishes_as(base, value) && reveals_to(value, back) implies same_components(
        same_first,
        same_second,
    )(base, back) by {
        assert(publishes_as(base.0, value.0) && reveals_to(value.0, back.0));
        assert(publishes_as(base.1, value.1) && reveals_to(value.1, back.1));
    }
}

/// A cell comes back with the same pointee, where the pointee comes back
/// the same and the clones of both representations are equal to what they
/// were made from.
pub proof fn lemma_cell_round_trips<T: Reveal + Clone>(
    same: spec_fn(T::Base, T::Base) -> bool,
) where T::Base: Clone
    requires
        round_trips::<T>(same),
        forall|x: T, y: T| #[trigger] cloned::<T>(x, y) ==> x == y,
        forall|x: T::Base, y: T::Base| #[trigger] cloned::<T::Base>(x, y) ==> x == y,
    ensures
        round_trips::<Rc<T>>(same_pointee(same)),
{
    assert forall|base: Rc<T::Base>, value: Rc<T>, r: Result<Rc<T::Base>, NotPublic>|
        #![trigger publishes_as(base, value), unwraps_to(value, r)]
        publishes_as(base, value) && unwraps_to(value, r) implies (r matches Ok(back)
        && same_pointee(same)(base, back)) by {
        let tagged = choose|copy: T::Base| #[trigger]
            cloned::<T::Base>(*base, copy) && publishes_as(copy, *value);
        let copy = choose|copy: T| #[trigger]
            cloned::<T>(*value, copy) && match r {
                Ok(back) => unwraps_to(copy, Ok(*back)),
                Err(e) => unwraps_to(copy, Err(e)),
            };
        assert(publishes_as(*base, *value));
        match r {
            Ok(back) => {
                assert(unwraps_to(*value, Ok(*back)));
            },
            Err(e) => {
                assert(unwraps_to(*value, Err(e)));
            },
        }
    }
}

/// A revealed cell has the same pointee as the tagged one, where the pointee
/// reveals to the same and the clones of both representations are equal to
/// what they were made from.
pub proof fn lemma_cell_reveal_undoes_tagging<T: Reveal + Clone>(
    same: spec_fn(T::Base, T::Base) -> bool,
) where T::Base: Clone
    requires
        reveal_undoes_tagging::<T>(same),
        forall|x: T, y: T| #[trigger] cloned::<T>(x, y) ==> x == y,
        forall|x: T::Base, y: T::Base| #[trigger] cloned::<T::Base>(x, y) ==> x == y,
    ensures
        reveal_undoes_tagging::<Rc<T>>(same_pointee(same)),
{
    assert forall|base: Rc<T::Base>, value: Rc<T>, back: Rc<T::Base>|
        #![trigger publishes_as(base, value), reveals_to(value, back)]
        publishes_as(base, value) && reveals_to(value, back) implies same_pointee(same)(
        base,
        back,
    ) by {
        let tagged = choose|copy: T::Base| #[trigger]
            cloned::<T::Base>(*base, copy) && publishes_as(copy, *value);
        let copy = choose|copy: T| #[trigger] cloned::<T>(*value, copy) && reveals_to(copy, *back);
        assert(publishes_as(*base, *value) && reveals_to(*value, *back));
    }
}

/// A pair of a tagged map is not refused, where neither its key nor its
/// value is. `tagged` lists the pairs that were made, `bases` what each was
/// made from.
proof fn lemma_tagged_pair_is_accepted<K: Reveal, V: Reveal>(
    bases: Seq<(K::Base, V::Base)>,
    tagged: Seq<(K, V)>,
    same_key: spec_fn(K::Base, K::Base) -> bool,
    same: spec_fn(V::Base, V::Base) -> bool,
    e: (K, V),
    refusal: NotPublic,
)
    requires
        round_trips::<K>(same_key),
        round_trips::<V>(same),
        pairwise(bases, tagged, |b: (K::Base, V::Base), e: (K, V)| publishes_as(b, e)),
        collected(tagged).contains_pair(e.0, e.1),
    ensures
        !unwraps_to(e, Err(refusal)),
{
    let i = lemma_collected_value(tagged, e.0);
    assert(publishes_as(bases[i], tagged[i]));
    assert(publishes_as(bases[i].0, tagged[i].0) && publishes_as(bases[i].1, tagged[i].1));
    if unwraps_to(e, Err(refusal)) {
        if unwraps_to(e.0, Err(refusal)) {
        } else {
            assert(unwraps_to(e.1, Err(refusal)));
        }
    }
}

/// A map comes back with the same keys, and for each key the same value,
/// where its keys come back equal and its values come back the same.
pub proof fn lemma_map_round_trips<K: Reveal + Ord, V: Reveal>(
    same: spec_fn(V::Base, V::Base) -> bool,
) where K::Base: Ord
    requires
        obeys_cmp::<K>(),
        obeys_cmp::<K::Base>(),
        round_trips::<K>(equal()),
        round_trips::<V>(same),
    ensures
        round_trips::<BTreeMap<K, V>>(same_entries(same)),
{
    let tag_key = |b: K::Base, k: K| publishes_as(b, k);
    let tag_value = |b: V::Base, v: V| publishes_as(b, v);
    let accept_key = |k: K, b: K::Base| unwraps_to(k, Ok(b));
    let accept_value = |v: V, b: V::Base| unwraps_to(v, Ok(b));
    assert forall|
        base: BTreeMap<K::Base, V::Base>,
        value: BTreeMap<K, V>,
        r: Result<BTreeMap<K::Base, V::Base>, NotPublic>,
    |
        #![trigger publishes_as(base, value), unwraps_to(value, r)]
        publishes_as(base, value) && unwraps_to(value, r) implies (r matches Ok(back)
        && same_entries(same)(base, back)) by {
        let tag = |b: (K::Base, V::Base), e: (K, V)| publishes_as(b, e);
        let (bases, tagged) = choose|bases: Seq<(K::Base, V::Base)>, tagged: Seq<(K, V)>|
            #![trigger bases.len(), tagged.len()]
            all_entries(base@, bases) && pairwise(bases, tagged, tag) && value@ == collected(
                tagged,
            );
        let unwrap = |e: (K, V), o: Result<(K::Base, V::Base), NotPublic>| unwraps_to(e, o);
        assert(entries_converted_or_first_refusal(value@, map_outcome(r), unwrap));
        let accept = |e: (K, V), c: (K::Base, V::Base)| unwrap(e, Ok(c));
        match r {
            Ok(back) => {
                let (src, dst) = choose|src: Seq<(K, V)>, dst: Seq<(K::Base, V::Base)>|
                    #![trigger src.len(), dst.len()]
                    all_entries(value@, src) && pairwise(src, dst, accept) && back@ == collected(
                        dst,
                    );
                let there = |a: (K::Base, V::Base), b: (K, V)|
                    tag_key(a.0, b.0) && tag_value(a.1, b.1);
                let back_again = |b: (K, V), c: (K::Base, V::Base)|
                    accept_key(b.0, c.0) && accept_value(b.1, c.1);
                assert(pairwise(bases, tagged, there)) by {
                    assert forall|i: int| 0 <= i < bases.len() implies there(
                        #[trigger] bases[i],
                        tagged[i],
                    ) by {
                        assert(tag(bases[i], tagged[i]));
                    }
                }
                assert(pairwise(src, dst, back_again)) by {
                    assert forall|i: int| 0 <= i < src.len() implies back_again(
                        #[trigger] src[i],
                        dst[i],
                    ) by {
                        assert(accept(src[i], dst[i]));
                    }
                }
                assert(bases.len() == tagged.len() && src.len() == dst.len());
                assert(entries_converted(base@, value@, there));
                assert(entries_converted(value@, back@, back_again));
                lemma_there_and_back(
                    base@,
                    value@,
                    back@,
                    tag_key,
                    tag_value,
                    accept_key,
                    accept_value,
                    same,
                );
            },
            Err(refusal) => {
                let (src, dst) = choose|src: Seq<(K, V)>, dst: Seq<(K::Base, V::Base)>|
                    #![trigger src.len(), dst.len()]
                    leading_entries(value@, src) && src.len() == dst.len() + 1 && pairwise(
                        src.drop_last(),
                        dst,
                        accept,
                    ) && unwrap(src.last(), Err(refusal));
                let e = src[src.len() - 1];
                assert(value@.contains_pair(e.0, e.1));
                lemma_tagged_pair_is_accepted::<K, V>(bases, tagged, equal(), same, e, refusal);
            },
        }
    }
}

/// A revealed map has the keys of the one that was tagged, and for each key
/// the same value, where its keys reveal to an equal key and its values
/// reveal to the same.
pub proof fn lemma_map_reveal_undoes_tagging<K: Reveal + Ord, V: Reveal>(
    same: spec_fn(V::Base, V::Base) -> bool,
) where K::Base: Ord
    requires
        obeys_cmp::<K>(),
        obeys_cmp::<K::Base>(),
        reveal_undoes_tagging::<K>(equal()),
        reveal_undoes_tagging::<V>(same),
    ensures
        reveal_undoes_tagging::<BTreeMap<K, V>>(same_entries(same)),
{
    let tag_key = |b: K::Base, k: K| publishes_as(b, k);
    let tag_value = |b: V::Base, v: V| publishes_as(b, v);
    let open_key = |k: K, b: K::Base| reveals_to(k, b);
    let open_value = |v: V, b: V::Base| reveals_to(v, b);
    assert forall|
        base: BTreeMap<K::Base, V::Base>,
        value: BTreeMap<K, V>,
        back: BTreeMap<K::Base, V::Base>,
    |
        #![trigger publishes_as(base, value), reveals_to(value, back)]
        publishes_as(base, value) && reveals_to(value, back) implies same_entries(same)(
        base,
        back,
    ) by {
        let tag = |b: (K::Base, V::Base), e: (K, V)| publishes_as(b, e);
        let (bases, tagged) = choose|bases: Seq<(K::Base, V::Base)>, tagged: Seq<(K, V)>|
            #![trigger bases.len(), tagged.len()]
            all_entries(base@, bases) && pairwise(bases, tagged, tag) && value@ == collected(
                tagged,
            );
        let open = |e: (K, V), c: (K::Base, V::Base)| reveals_to(e, c);
        let (src, dst) = choose|src: Seq<(K, V)>, dst: Seq<(K::Base, V::Base)>|
            #![trigger src.len(), dst.len()]
            all_entries(value@, src) && pairwise(src, dst, open) && back@ == collected(dst);
        let there = |a: (K::Base, V::Base), b: (K, V)| tag_key(a.0, b.0) && tag_value(a.1, b.1);
        let back_again = |b: (K, V), c: (K::Base, V::Base)|
            open_key(b.0, c.0) && open_value(b.1, c.1);
        assert(pairwise(bases, tagged, there)) by {
            assert forall|i: int| 0 <= i < bases.len() implies there(
                #[trigger] bases[i],
                tagged[i],
            ) by {
                assert(tag(bases[i], tagged[i]));
            }
        }
        assert(pairwise(src, dst, back_again)) by {
            assert forall|i: int| 0 <= i < src.len() implies back_again(
                #[trigger] src[i],
                dst[i],
            ) by {
                assert(open(src[i], dst[i]));
            }
        }
        assert(bases.len() == tagged.len() && src.len() == dst.len());
        assert(entries_converted(base@, value@, there));
        assert(entries_converted(value@, back@, back_again));
        lemma_there_and_back(
            base@,
            value@,
            back@,
            tag_key,
            tag_value,
            open_key,
            open_value,
            same,
        );
    }
}

} // verus!
