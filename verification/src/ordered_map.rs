//! Ordered maps: every entry is converted as a pair, in increasing key order,
//! and the converted pairs are collected into a new map.

use crate::contract::{publishes_as, reveals_to, shares_as, unwraps_to, NotPublic, Reveal};
use crate::shape::pairwise;
use ark_std::collections::BTreeMap;
use vstd::laws_cmp::obeys_cmp;
use vstd::prelude::*;
use vstd::std_specs::cmp::{OrdSpec, PartialOrdSpec};

verus! {

/// The map that holds the pairs of `entries`, a later pair replacing an
/// earlier one of the same key.
pub open spec fn collected<K, V>(entries: Seq<(K, V)>) -> Map<K, V>
    decreases entries.len(),
{
    if entries.len() == 0 {
        Map::empty()
    } else {
        collected(entries.drop_last()).insert(entries.last().0, entries.last().1)
    }
}

/// `k` is the key of one of `entries`.
pub open spec fn listed<K, V>(entries: Seq<(K, V)>, k: K) -> bool {
    exists|i: int| 0 <= i < entries.len() && (#[trigger] entries[i]).0 == k
}

/// `entries` are the first pairs of `m` in increasing key order: each is a
/// pair of `m`, each key is less than the next, and less than every key of
/// `m` that is not among them.
pub open spec fn leading_entries<K: Ord, V>(m: Map<K, V>, entries: Seq<(K, V)>) -> bool {
    &&& forall|i: int|
        0 <= i < entries.len() ==> m.contains_pair((#[trigger] entries[i]).0, entries[i].1)
    &&& forall|i: int, j: int|
        0 <= i < j < entries.len() ==> (#[trigger] entries[i]).0.cmp_spec(
            &(#[trigger] entries[j]).0,
        ) is Less
    &&& forall|i: int, k: K|
        0 <= i < entries.len() && #[trigger] m.contains_key(k) && !listed(entries, k) ==> (
        #[trigger] entries[i]).0.cmp_spec(&k) is Less
}

/// `entries` are all the pairs of `m`, in increasing key order.
pub open spec fn all_entries<K: Ord, V>(m: Map<K, V>, entries: Seq<(K, V)>) -> bool {
    &&& leading_entries(m, entries)
    &&& forall|k: K| #[trigger] m.contains_key(k) ==> listed(entries, k)
}

/// `out` is collected from the pairs of `m`, converted in increasing key
/// order: `rel` holds between each pair of `m` and the pair that it was
/// converted to.
pub open spec fn entries_converted<K: Ord, V, K2, V2>(
    m: Map<K, V>,
    out: Map<K2, V2>,
    rel: spec_fn((K, V), (K2, V2)) -> bool,
) -> bool {
    exists|src: Seq<(K, V)>, dst: Seq<(K2, V2)>|
        #![trigger src.len(), dst.len()]
        {
            &&& all_entries(m, src)
            &&& pairwise(src, dst, rel)
            &&& out == collected(dst)
        }
}

/// The outcome `r` of converting the pairs of `m` in increasing key order with
/// a conversion that may refuse a pair: either every pair was converted and
/// the converted pairs collected, or the pairs before the first refused one
/// were converted and `r` is the refusal of that pair.
///
/// `rel(e, o)` says that `o` is a possible outcome for the pair `e`.
pub open spec fn entries_converted_or_first_refusal<K: Ord, V, K2, V2, E>(
    m: Map<K, V>,
    r: Result<Map<K2, V2>, E>,
    rel: spec_fn((K, V), Result<(K2, V2), E>) -> bool,
) -> bool {
    match r {
        Ok(out) => entries_converted(m, out, |e: (K, V), e2: (K2, V2)| rel(e, Ok(e2))),
        Err(refusal) => exists|src: Seq<(K, V)>, dst: Seq<(K2, V2)>|
            #![trigger src.len(), dst.len()]
            {
                &&& leading_entries(m, src)
                &&& src.len() == dst.len() + 1
                &&& pairwise(src.drop_last(), dst, |e: (K, V), e2: (K2, V2)| rel(e, Ok(e2)))
                &&& rel(src.last(), Err(refusal))
            },
    }
}

/// The outcome of a fallible conversion of a map, with the converted map seen
/// as a `Map`.
pub open spec fn map_outcome<K, V, E>(r: Result<BTreeMap<K, V>, E>) -> Result<Map<K, V>, E> {
    match r {
        Ok(out) => Ok(out@),
        Err(e) => Err(e),
    }
}

/// A key is among `entries.push(e)` where it is among `entries` or is the key
/// of `e`.
proof fn lemma_listed_push<K, V>(entries: Seq<(K, V)>, e: (K, V))
    ensures
        forall|k: K| listed(entries.push(e), k) <==> listed(entries, k) || k == e.0,
{
    let grown = entries.push(e);
    assert forall|k: K| listed(grown, k) <==> listed(entries, k) || k == e.0 by {
        if listed(entries, k) {
            let j = choose|j: int| 0 <= j < entries.len() && (#[trigger] entries[j]).0 == k;
            assert(grown[j].0 == k);
        }
        if k == e.0 {
            assert(grown[grown.len() - 1].0 == k);
        }
        if listed(grown, k) {
            let j = choose|j: int| 0 <= j < grown.len() && (#[trigger] grown[j]).0 == k;
            if j < entries.len() {
                assert(entries[j].0 == k);
            }
        }
    }
}

/// `BTreeMap::pop_first` of std: takes the pair with the least key out of
/// the map and returns it, or returns `None` and leaves the map as it is
/// when it is empty. As everything that is said of a `BTreeMap`'s view, this
/// is claimed only where the key's order obeys the laws of a total order.
#[verifier::external_body]
fn pop_first<K: Ord, V>(m: &mut BTreeMap<K, V>) -> (first: Option<(K, V)>)
    ensures
        obeys_cmp::<K>() ==> match first {
            Some((k, v)) => {
                &&& old(m)@.contains_pair(k, v)
                &&& final(m)@ == old(m)@.remove(k)
                &&& forall|other: K| #[trigger]
                    old(m)@.contains_key(other) && other != k ==> k.cmp_spec(&other) is Less
            },
            None => old(m)@.dom().is_empty() && final(m)@ == old(m)@,
        },
{
    m.pop_first()
}

/// Applies `f` to every pair of `m`, in increasing key order, and collects
/// what it returns.
pub(crate) fn map_entries<K: Ord, V, K2: Ord, V2, F: Fn((K, V)) -> (K2, V2)>(
    m: BTreeMap<K, V>,
    f: F,
) -> (out: BTreeMap<K2, V2>)
    requires
        forall|e: (K, V)| call_requires(f, (e,)),
    ensures
        obeys_cmp::<K>() && obeys_cmp::<K2>() ==> entries_converted(
            m@,
            out@,
            |e: (K, V), e2: (K2, V2)| call_ensures(f, (e,), e2),
        ),
{
    let ghost rel = |e: (K, V), e2: (K2, V2)| call_ensures(f, (e,), e2);
    let ghost mut src: Seq<(K, V)> = Seq::empty();
    let ghost mut dst: Seq<(K2, V2)> = Seq::empty();
    let mut rest = m;
    let mut out: BTreeMap<K2, V2> = BTreeMap::new();
    // The number of pairs bounds the loop, whatever the order of the keys is.
    let n = rest.len();
    let mut i: usize = 0;
    while i < n
        invariant
            i <= n,
            forall|e: (K, V)| call_requires(f, (e,)),
            rel == |e: (K, V), e2: (K2, V2)| call_ensures(f, (e,), e2),
            obeys_cmp::<K>() && obeys_cmp::<K2>() ==> {
                &&& rest@.len() == n - i
                &&& leading_entries(m@, src)
                &&& forall|k: K|
                    #![trigger rest@.contains_key(k)]
                    #![trigger m@.contains_key(k)]
                    rest@.contains_key(k) <==> m@.contains_key(k) && !listed(src, k)
                &&& forall|k: K| #[trigger] rest@.contains_key(k) ==> rest@[k] == m@[k]
                &&& pairwise(src, dst, rel)
                &&& out@ == collected(dst)
            },
        decreases n - i,
    {
        match pop_first(&mut rest) {
            Some(e) => {
                let e2 = f(e);
                proof {
                    if obeys_cmp::<K>() && obeys_cmp::<K2>() {
                        lemma_listed_push(src, e);
                        assert(leading_entries(m@, src.push(e)));
                        assert(dst.push(e2).drop_last() =~= dst);
                    }
                    src = src.push(e);
                    dst = dst.push(e2);
                }
                out.insert(e2.0, e2.1);
            },
            None => {
                return out;
            },
        }
        i += 1;
    }
    proof {
        if obeys_cmp::<K>() && obeys_cmp::<K2>() {
            assert(all_entries(m@, src));
        }
    }
    out
}

/// Applies `f` to the pairs of `m` in increasing key order, up to the first
/// one that it refuses, and collects what it returns.
pub(crate) fn try_map_entries<K: Ord, V, K2: Ord, V2, E, F: Fn((K, V)) -> Result<(K2, V2), E>>(
    m: BTreeMap<K, V>,
    f: F,
) -> (r: Result<BTreeMap<K2, V2>, E>)
    requires
        forall|e: (K, V)| call_requires(f, (e,)),
    ensures
        obeys_cmp::<K>() && obeys_cmp::<K2>() ==> entries_converted_or_first_refusal(
            m@,
            map_outcome(r),
            |e: (K, V), o: Result<(K2, V2), E>| call_ensures(f, (e,), o),
        ),
{
    let ghost rel = |e: (K, V), e2: (K2, V2)| call_ensures(f, (e,), Ok::<(K2, V2), E>(e2));
    let ghost mut src: Seq<(K, V)> = Seq::empty();
    let ghost mut dst: Seq<(K2, V2)> = Seq::empty();
    let mut rest = m;
    let mut out: BTreeMap<K2, V2> = BTreeMap::new();
    // The number of pairs bounds the loop, whatever the order of the keys is.
    let n = rest.len();
    let mut i: usize = 0;
    while i < n
        invariant
            i <= n,
            forall|e: (K, V)| call_requires(f, (e,)),
            rel == |e: (K, V), e2: (K2, V2)| call_ensures(f, (e,), Ok::<(K2, V2), E>(e2)),
            obeys_cmp::<K>() && obeys_cmp::<K2>() ==> {
                &&& rest@.len() == n - i
                &&& leading_entries(m@, src)
                &&& forall|k: K|
                    #![trigger rest@.contains_key(k)]
                    #![trigger m@.contains_key(k)]
                    rest@.contains_key(k) <==> m@.contains_key(k) && !listed(src, k)
                &&& forall|k: K| #[trigger] rest@.contains_key(k) ==> rest@[k] == m@[k]
                &&& pairwise(src, dst, rel)
                &&& out@ == collected(dst)
            },
        decreases n - i,
    {
        match pop_first(&mut rest) {
            Some(e) => {
                let o = f(e);
                proof {
                    if obeys_cmp::<K>() && obeys_cmp::<K2>() {
                        lemma_listed_push(src, e);
                        assert(leading_entries(m@, src.push(e)));
                    }
                }
                match o {
                    Ok(e2) => {
                        proof {
                            assert(dst.push(e2).drop_last() =~= dst);
                            src = src.push(e);
                            dst = dst.push(e2);
                        }
                        out.insert(e2.0, e2.1);
                    },
                    Err(refusal) => {
                        proof {
                            if obeys_cmp::<K>() && obeys_cmp::<K2>() {
                                let grown = src.push(e);
                                assert(grown.drop_last() =~= src);
                                assert(grown.len() == dst.len() + 1);
                            }
                        }
                        return Err(refusal);
                    },
                }
            },
            None => {
                return Ok(out);
            },
        }
        i += 1;
    }
    proof {
        if obeys_cmp::<K>() && obeys_cmp::<K2>() {
            assert(all_entries(m@, src));
        }
    }
    Ok(out)
}

/// Every operation converts the entries as pairs, in increasing order of
/// their keys, and collects the converted pairs; where two converted keys are
/// equal, the pair that came later stays.
///
/// All that is stated holds where the orders of `K` and of `K::Base` obey the
/// laws of a total order: of other maps std promises nothing.
impl<K: Reveal + Ord, V: Reveal> Reveal for BTreeMap<K, V> where K::Base: Ord {
    type Base = BTreeMap<K::Base, V::Base>;

    /// Reveals every entry.
    fn revealed(self) -> (base: BTreeMap<K::Base, V::Base>)
        ensures
            obeys_cmp::<K>() && obeys_cmp::<K::Base>() ==> entries_converted(
                self@,
                base@,
                |e: (K, V), b: (K::Base, V::Base)| reveals_to(e, b),
            ),
    {
        map_entries(self, <(K, V)>::revealed)
    }

    /// Wraps every entry of shares.
    fn from_add_shared(other: BTreeMap<K::Base, V::Base>) -> (value: BTreeMap<K, V>)
        ensures
            obeys_cmp::<K>() && obeys_cmp::<K::Base>() ==> entries_converted(
                other@,
                value@,
                |b: (K::Base, V::Base), e: (K, V)| shares_as(b, e),
            ),
    {
        let wrap = |b: (K::Base, V::Base)| -> (e: (K, V))
            ensures
                shares_as(b, e),
            { Reveal::from_add_shared(b) };
        map_entries(other, wrap)
    }

    /// Tags every entry as public.
    fn from_public(other: BTreeMap<K::Base, V::Base>) -> (value: BTreeMap<K, V>)
        ensures
            obeys_cmp::<K>() && obeys_cmp::<K::Base>() ==> entries_converted(
                other@,
                value@,
                |b: (K::Base, V::Base), e: (K, V)| publishes_as(b, e),
            ),
    {
        let tag = |b: (K::Base, V::Base)| -> (e: (K, V))
            ensures
                publishes_as(b, e),
            { Reveal::from_public(b) };
        map_entries(other, tag)
    }

    /// Unwraps the entries, and stops at the first one that is refused.
    fn unwrap_as_public(self) -> (r: Result<BTreeMap<K::Base, V::Base>, NotPublic>)
        ensures
            obeys_cmp::<K>() && obeys_cmp::<K::Base>() ==> entries_converted_or_first_refusal(
                self@,
                map_outcome(r),
                |e: (K, V), o: Result<(K::Base, V::Base), NotPublic>| unwraps_to(e, o),
            ),
    {
        try_map_entries(self, <(K, V)>::unwrap_as_public)
    }
}

/// No two of `entries` have the same key.
pub open spec fn distinct_keys<K, V>(entries: Seq<(K, V)>) -> bool {
    forall|i: int, j: int|
        0 <= i < j < entries.len() ==> (#[trigger] entries[i]).0 != (#[trigger] entries[j]).0
}

/// The keys of the collected map are the keys of the entries.
pub proof fn lemma_collected_keys<K, V>(entries: Seq<(K, V)>)
    ensures
        collected(entries).dom().finite(),
        forall|k: K| #[trigger] collected(entries).contains_key(k) <==> listed(entries, k),
    decreases entries.len(),
{
    if entries.len() > 0 {
        let front = entries.drop_last();
        lemma_collected_keys(front);
        assert(front.push(entries.last()) =~= entries);
        lemma_listed_push(front, entries.last());
    } else {
        assert forall|k: K| !listed(entries, k) by {}
    }
}

/// Where no two entries have the same key, collecting keeps every entry: the
/// collected map has as many pairs as there are entries, and holds each.
pub proof fn lemma_collected_distinct<K, V>(entries: Seq<(K, V)>)
    requires
        distinct_keys(entries),
    ensures
        collected(entries).len() == entries.len(),
        forall|i: int|
            0 <= i < entries.len() ==> collected(entries).contains_pair(
                (#[trigger] entries[i]).0,
                entries[i].1,
            ),
    decreases entries.len(),
{
    if entries.len() > 0 {
        let front = entries.drop_last();
        let last = entries.last();
        lemma_collected_distinct(front);
        lemma_collected_keys(front);
        if listed(front, last.0) {
            let j = choose|j: int| 0 <= j < front.len() && (#[trigger] front[j]).0 == last.0;
            assert(entries[j].0 == entries[entries.len() - 1].0);
        }
        assert forall|i: int| 0 <= i < entries.len() implies collected(entries).contains_pair(
            (#[trigger] entries[i]).0,
            entries[i].1,
        ) by {
            if i < front.len() {
                assert(front[i] == entries[i]);
                assert(entries[i].0 != entries[entries.len() - 1].0);
            }
        }
    }
}

/// The value that the collected map holds for a key is that of one of the
/// entries with that key; the entry's position is returned.
pub proof fn lemma_collected_value<K, V>(entries: Seq<(K, V)>, k: K) -> (i: int)
    requires
        collected(entries).contains_key(k),
    ensures
        0 <= i < entries.len(),
        entries[i] == (k, collected(entries)[k]),
    decreases entries.len(),
{
    if entries.last().0 == k {
        entries.len() - 1
    } else {
        lemma_collected_value(entries.drop_last(), k)
    }
}

/// Keys in increasing order are distinct.
pub proof fn lemma_leading_entries_distinct<K: Ord, V>(m: Map<K, V>, entries: Seq<(K, V)>)
    requires
        obeys_cmp::<K>(),
        leading_entries(m, entries),
    ensures
        distinct_keys(entries),
{
    reveal(vstd::laws_cmp::obeys_cmp_ord);
    reveal(vstd::laws_cmp::obeys_partial_cmp_spec_properties);
    assert forall|i: int, j: int| 0 <= i < j < entries.len() implies (#[trigger] entries[i]).0 != (
    #[trigger] entries[j]).0 by {
        let a = entries[i].0;
        let b = entries[j].0;
        assert(a.cmp_spec(&b) is Less);
        if a == b {
            assert(a.partial_cmp_spec(&a) == Some(a.cmp_spec(&a)));
        }
    }
}

/// Collecting all the pairs of a map gives the map.
pub proof fn lemma_collected_all_entries<K: Ord, V>(m: Map<K, V>, entries: Seq<(K, V)>)
    requires
        obeys_cmp::<K>(),
        all_entries(m, entries),
    ensures
        collected(entries) == m,
        m.dom().finite(),
        m.len() == entries.len(),
{
    lemma_leading_entries_distinct(m, entries);
    lemma_collected_distinct(entries);
    lemma_collected_keys(entries);
    assert forall|k: K| #[trigger] collected(entries).contains_key(k) implies m.contains_key(k) by {
        let i = choose|i: int| 0 <= i < entries.len() && (#[trigger] entries[i]).0 == k;
    }
    assert forall|k: K| #[trigger]
        collected(entries).contains_key(k) implies collected(entries)[k] == m[k] by {
        let i = choose|i: int| 0 <= i < entries.len() && (#[trigger] entries[i]).0 == k;
        assert(collected(entries).contains_pair(entries[i].0, entries[i].1));
    }
    assert(collected(entries) =~= m);
}

/// `b` has the keys of `a`, and `same` holds between the values that the two
/// hold for each key.
pub open spec fn same_values<K, V>(
    a: Map<K, V>,
    b: Map<K, V>,
    same: spec_fn(V, V) -> bool,
) -> bool {
    &&& a.dom() == b.dom()
    &&& forall|k: K| #[trigger] a.contains_key(k) ==> same(a[k], b[k])
}

/// The conversion never takes two pairs of `m` with different keys to pairs
/// with the same key.
pub open spec fn keeps_keys_apart<K, V, K2, V2>(
    m: Map<K, V>,
    rel: spec_fn((K, V), (K2, V2)) -> bool,
) -> bool {
    forall|e1: (K, V), e2: (K, V), c1: (K2, V2), c2: (K2, V2)|
        #![trigger rel(e1, c1), rel(e2, c2)]
        m.contains_pair(e1.0, e1.1) && m.contains_pair(e2.0, e2.1) && e1.0 != e2.0 && rel(e1, c1)
            && rel(e2, c2) ==> c1.0 != c2.0
}

/// Every pair of a converted map is the conversion of a pair of the map that
/// it was converted from, whether or not two keys were converted to the same
/// key.
pub proof fn lemma_converted_pairs_have_sources<K: Ord, V, K2, V2>(
    m: Map<K, V>,
    out: Map<K2, V2>,
    rel: spec_fn((K, V), (K2, V2)) -> bool,
)
    requires
        obeys_cmp::<K>(),
        entries_converted(m, out, rel),
    ensures
        forall|k2: K2| #[trigger]
            out.contains_key(k2) ==> exists|k: K| #[trigger]
                m.contains_key(k) && rel((k, m[k]), (k2, out[k2])),
{
    let (src, dst) = choose|src: Seq<(K, V)>, dst: Seq<(K2, V2)>|
        #![trigger src.len(), dst.len()]
        all_entries(m, src) && pairwise(src, dst, rel) && out == collected(dst);
    assert forall|k2: K2| #[trigger] out.contains_key(k2) implies exists|k: K| #[trigger]
        m.contains_key(k) && rel((k, m[k]), (k2, out[k2])) by {
        let i = lemma_collected_value(dst, k2);
        assert(m.contains_pair(src[i].0, src[i].1));
        assert(rel(src[i], dst[i]));
        assert(src[i] == (src[i].0, m[src[i].0]));
        assert(dst[i] == (k2, out[k2]));
        assert(m.contains_key(src[i].0));
    }
}

/// Every key of a map was converted to a key of the converted map, whether
/// or not two keys were converted to the same key.
pub proof fn lemma_keys_are_converted<K: Ord, V, K2, V2>(
    m: Map<K, V>,
    out: Map<K2, V2>,
    rel: spec_fn((K, V), (K2, V2)) -> bool,
)
    requires
        obeys_cmp::<K>(),
        entries_converted(m, out, rel),
    ensures
        forall|k: K| #[trigger]
            m.contains_key(k) ==> exists|c: (K2, V2)|
                rel((k, m[k]), c) && #[trigger] out.contains_key(c.0),
{
    let (src, dst) = choose|src: Seq<(K, V)>, dst: Seq<(K2, V2)>|
        #![trigger src.len(), dst.len()]
        all_entries(m, src) && pairwise(src, dst, rel) && out == collected(dst);
    lemma_collected_keys(dst);
    assert forall|k: K| #[trigger] m.contains_key(k) implies exists|c: (K2, V2)|
        rel((k, m[k]), c) && #[trigger] out.contains_key(c.0) by {
        let i = choose|i: int| 0 <= i < src.len() && (#[trigger] src[i]).0 == k;
        assert(m.contains_pair(src[i].0, src[i].1));
        assert(src[i] == (k, m[k]));
        assert(rel(src[i], dst[i]));
        assert(listed(dst, dst[i].0));
        assert(out.contains_key(dst[i].0));
    }
}

/// Where the conversion keeps different keys apart, it keeps the pairing:
/// the converted map has as many pairs as the map that it was converted from,
/// and the conversion of each pair of that map is one of its pairs.
pub proof fn lemma_pairing_preserved<K: Ord, V, K2, V2>(
    m: Map<K, V>,
    out: Map<K2, V2>,
    rel: spec_fn((K, V), (K2, V2)) -> bool,
)
    requires
        obeys_cmp::<K>(),
        entries_converted(m, out, rel),
        keeps_keys_apart(m, rel),
    ensures
        m.dom().finite(),
        out.dom().finite(),
        out.len() == m.len(),
        forall|k: K| #[trigger]
            m.contains_key(k) ==> exists|c: (K2, V2)|
                rel((k, m[k]), c) && #[trigger] out.contains_pair(c.0, c.1),
{
    let (src, dst) = choose|src: Seq<(K, V)>, dst: Seq<(K2, V2)>|
        #![trigger src.len(), dst.len()]
        all_entries(m, src) && pairwise(src, dst, rel) && out == collected(dst);
    lemma_collected_all_entries(m, src);
    lemma_leading_entries_distinct(m, src);
    assert forall|i: int, j: int| 0 <= i < j < dst.len() implies (#[trigger] dst[i]).0 != (
    #[trigger] dst[j]).0 by {
        assert(m.contains_pair(src[i].0, src[i].1));
        assert(m.contains_pair(src[j].0, src[j].1));
        assert(rel(src[i], dst[i]) && rel(src[j], dst[j]));
    }
    lemma_collected_distinct(dst);
    lemma_collected_keys(dst);
    assert forall|k: K| #[trigger] m.contains_key(k) implies exists|c: (K2, V2)|
        rel((k, m[k]), c) && #[trigger] out.contains_pair(c.0, c.1) by {
        let i = choose|i: int| 0 <= i < src.len() && (#[trigger] src[i]).0 == k;
        assert(m.contains_pair(src[i].0, src[i].1));
        assert(src[i] == (k, m[k]));
        assert(rel(src[i], dst[i]));
        assert(out.contains_pair(dst[i].0, dst[i].1));
    }
}

/// Revealing keeps the keys of a map apart where they are indices: an index
/// reveals to itself.
pub proof fn lemma_index_keys_kept_apart<V: Reveal>(m: Map<usize, V>)
    ensures
        keeps_keys_apart(m, |e: (usize, V), b: (usize, V::Base)| reveals_to(e, b)),
{
    let rel = |e: (usize, V), b: (usize, V::Base)| reveals_to(e, b);
    assert forall|e1: (usize, V), e2: (usize, V), c1: (usize, V::Base), c2: (usize, V::Base)|
        #![trigger rel(e1, c1), rel(e2, c2)]
        e1.0 != e2.0 && rel(e1, c1) && rel(e2, c2) implies c1.0 != c2.0 by {
        assert(reveals_to(e1.0, c1.0) && reveals_to(e2.0, c2.0));
    }
}

/// A map whose keys are indices reveals to a map with the same keys, which
/// holds for each key the revealed value.
pub proof fn lemma_index_keyed_map_revealed<V: Reveal>(m: Map<usize, V>, out: Map<usize, V::Base>)
    requires
        entries_converted(m, out, |e: (usize, V), b: (usize, V::Base)| reveals_to(e, b)),
    ensures
        out.dom() == m.dom(),
        forall|k: usize| #[trigger] m.contains_key(k) ==> reveals_to(m[k], out[k]),
{
    broadcast use vstd::laws_cmp::group_laws_cmp;

    let rel = |e: (usize, V), b: (usize, V::Base)| reveals_to(e, b);
    let (src, dst) = choose|src: Seq<(usize, V)>, dst: Seq<(usize, V::Base)>|
        #![trigger src.len(), dst.len()]
        all_entries(m, src) && pairwise(src, dst, rel) && out == collected(dst);
    lemma_collected_all_entries(m, src);
    lemma_leading_entries_distinct(m, src);
    assert forall|i: int| 0 <= i < src.len() implies (#[trigger] dst[i]).0 == src[i].0
        && reveals_to(src[i].1, dst[i].1) by {
        assert(rel(src[i], dst[i]));
        assert(reveals_to(src[i].0, dst[i].0));
    }
    assert(distinct_keys(dst)) by {
        assert forall|i: int, j: int| 0 <= i < j < dst.len() implies (#[trigger] dst[i]).0 != (
        #[trigger] dst[j]).0 by {
            assert(src[i].0 != src[j].0);
        }
    }
    lemma_collected_distinct(dst);
    lemma_collected_keys(dst);
    assert forall|k: usize| #[trigger] m.contains_key(k) implies out.contains_key(k)
        && reveals_to(m[k], out[k]) by {
        let i = choose|i: int| 0 <= i < src.len() && (#[trigger] src[i]).0 == k;
        assert(m.contains_pair(src[i].0, src[i].1));
        assert(out.contains_pair(dst[i].0, dst[i].1));
    }
    assert forall|k: usize| #[trigger] out.contains_key(k) implies m.contains_key(k) by {
        let i = choose|i: int| 0 <= i < dst.len() && (#[trigger] dst[i]).0 == k;
        assert(m.contains_pair(src[i].0, src[i].1));
    }
    assert(out.dom() =~= m.dom());
}

/// A pair of the map collected from `made` that is taken back comes back as
/// the pair that it was made from; the position of that pair is returned.
proof fn lemma_pair_comes_back<K, V, K2, V2>(
    from: Seq<(K, V)>,
    made: Seq<(K2, V2)>,
    there_key: spec_fn(K, K2) -> bool,
    there_value: spec_fn(V, V2) -> bool,
    back_key: spec_fn(K2, K) -> bool,
    back_value: spec_fn(V2, V) -> bool,
    same: spec_fn(V, V) -> bool,
    e: (K2, V2),
    c: (K, V),
) -> (i: int)
    requires
        from.len() == made.len(),
        forall|i: int|
            0 <= i < from.len() ==> there_key((#[trigger] from[i]).0, made[i].0) && there_value(
                from[i].1,
                made[i].1,
            ),
        forall|k: K, k2: K2, c: K| #[trigger]
            there_key(k, k2) && #[trigger] back_key(k2, c) ==> c == k,
        forall|v: V, v2: V2, c: V| #[trigger]
            there_value(v, v2) && #[trigger] back_value(v2, c) ==> same(v, c),
        collected(made).contains_pair(e.0, e.1),
        back_key(e.0, c.0),
        back_value(e.1, c.1),
    ensures
        0 <= i < from.len(),
        made[i] == e,
        from[i].0 == c.0,
        same(from[i].1, c.1),
{
    let i = lemma_collected_value(made, e.0);
    assert(there_key(from[i].0, made[i].0) && there_value(from[i].1, made[i].1));
    i
}

/// A map that is converted pair by pair and collected, and then converted
/// back pair by pair and collected again, has the keys that it had before,
/// and for each key the same value: where a key always comes back equal and a
/// value always comes back the same.
pub proof fn lemma_there_and_back<K: Ord, V, K2: Ord, V2>(
    m: Map<K, V>,
    mid: Map<K2, V2>,
    out: Map<K, V>,
    there_key: spec_fn(K, K2) -> bool,
    there_value: spec_fn(V, V2) -> bool,
    back_key: spec_fn(K2, K) -> bool,
    back_value: spec_fn(V2, V) -> bool,
    same: spec_fn(V, V) -> bool,
)
    requires
        obeys_cmp::<K>(),
        obeys_cmp::<K2>(),
        entries_converted(
            m,
            mid,
            |a: (K, V), b: (K2, V2)| there_key(a.0, b.0) && there_value(a.1, b.1),
        ),
        entries_converted(
            mid,
            out,
            |b: (K2, V2), c: (K, V)| back_key(b.0, c.0) && back_value(b.1, c.1),
        ),
        forall|k: K, k2: K2, c: K| #[trigger]
            there_key(k, k2) && #[trigger] back_key(k2, c) ==> c == k,
        forall|v: V, v2: V2, c: V| #[trigger]
            there_value(v, v2) && #[trigger] back_value(v2, c) ==> same(v, c),
    ensures
        same_values(m, out, same),
{
    let there = |a: (K, V), b: (K2, V2)| there_key(a.0, b.0) && there_value(a.1, b.1);
    let back = |b: (K2, V2), c: (K, V)| back_key(b.0, c.0) && back_value(b.1, c.1);
    let (from, made) = choose|from: Seq<(K, V)>, made: Seq<(K2, V2)>|
        #![trigger from.len(), made.len()]
        all_entries(m, from) && pairwise(from, made, there) && mid == collected(made);
    let (src, dst) = choose|src: Seq<(K2, V2)>, dst: Seq<(K, V)>|
        #![trigger src.len(), dst.len()]
        all_entries(mid, src) && pairwise(src, dst, back) && out == collected(dst);
    lemma_leading_entries_distinct(m, from);
    lemma_leading_entries_distinct(mid, src);
    lemma_collected_keys(made);
    lemma_collected_keys(dst);
    assert forall|i: int| 0 <= i < from.len() implies there_key(
        (#[trigger] from[i]).0,
        made[i].0,
    ) && there_value(from[i].1, made[i].1) by {
        assert(there(from[i], made[i]));
    }
    // Each pair that came back is a pair of `m`, up to `same`.
    assert forall|n: int| 0 <= n < dst.len() implies m.contains_key((#[trigger] dst[n]).0) && same(
        m[dst[n].0],
        dst[n].1,
    ) by {
        assert(mid.contains_pair(src[n].0, src[n].1));
        assert(back(src[n], dst[n]));
        let i = lemma_pair_comes_back(
            from,
            made,
            there_key,
            there_value,
            back_key,
            back_value,
            same,
            src[n],
            dst[n],
        );
        assert(m.contains_pair(from[i].0, from[i].1));
    }
    // No two pairs that came back have the same key.
    assert forall|n: int, p: int| 0 <= n < p < dst.len() implies (#[trigger] dst[n]).0 != (
    #[trigger] dst[p]).0 by {
        assert(mid.contains_pair(src[n].0, src[n].1));
        assert(mid.contains_pair(src[p].0, src[p].1));
        assert(back(src[n], dst[n]) && back(src[p], dst[p]));
        let a = lemma_pair_comes_back(
            from,
            made,
            there_key,
            there_value,
            back_key,
            back_value,
            same,
            src[n],
            dst[n],
        );
        let b = lemma_pair_comes_back(
            from,
            made,
            there_key,
            there_value,
            back_key,
            back_value,
            same,
            src[p],
            dst[p],
        );
        if dst[n].0 == dst[p].0 {
            assert(from[a].0 == from[b].0);
            assert(a == b);
            assert(src[n] == src[p]);
        }
    }
    lemma_collected_distinct(dst);
    // Every key of `m` is the key of a pair that came back.
    assert forall|k: K| #[trigger] m.contains_key(k) implies out.contains_key(k) by {
        let i = choose|i: int| 0 <= i < from.len() && (#[trigger] from[i]).0 == k;
        let k2 = made[i].0;
        assert(listed(made, k2));
        assert(mid.contains_key(k2));
        let n = choose|n: int| 0 <= n < src.len() && (#[trigger] src[n]).0 == k2;
        assert(back(src[n], dst[n]));
        assert(there_key(from[i].0, made[i].0) && back_key(src[n].0, dst[n].0));
        assert(dst[n].0 == k);
        assert(listed(dst, k));
    }
    assert forall|k: K| #[trigger] out.contains_key(k) implies m.contains_key(k) by {
        let n = choose|n: int| 0 <= n < dst.len() && (#[trigger] dst[n]).0 == k;
    }
    assert(m.dom() =~= out.dom());
    assert forall|k: K| #[trigger] m.contains_key(k) implies same(m[k], out[k]) by {
        let n = choose|n: int| 0 <= n < dst.len() && (#[trigger] dst[n]).0 == k;
        assert(out.contains_pair(dst[n].0, dst[n].1));
    }
}

} // verus!
