use mpc_algebra::{NotPublic, Reveal};
use std::collections::BTreeMap;
use std::marker::PhantomData;
use std::rc::Rc;

#[derive(Debug, Clone, PartialEq, Eq, PartialOrd, Ord)]
struct Masked {
    value: u64,
    mask: u64,
}

impl Reveal for Masked {
    type Base = u64;

    fn revealed(self) -> u64 {
        self.value.wrapping_sub(self.mask)
    }

    fn from_add_shared(b: u64) -> Self {
        Masked { value: b.wrapping_add(1), mask: 1 }
    }

    fn from_public(b: u64) -> Self {
        Masked { value: b, mask: 0 }
    }

    fn unwrap_as_public(self) -> Result<u64, NotPublic> {
        if self.mask == 0 {
            Ok(self.value)
        } else {
            Err(NotPublic)
        }
    }
}

#[test]
fn tagged_index_comes_back() {
    for b in [0usize, 1, 77, usize::MAX] {
        assert_eq!(<usize as Reveal>::from_public(b).unwrap_as_public(), Ok(b));
    }
}

#[test]
fn tagged_leaf_comes_back() {
    for b in [0u64, 9, u64::MAX] {
        assert_eq!(Masked::from_public(b).unwrap_as_public(), Ok(b));
    }
}

#[test]
fn tagged_sequence_comes_back() {
    let b = vec![3u64, 1, 4, 1, 5];
    let v: Vec<Masked> = Reveal::from_public(b.clone());
    assert_eq!(v.unwrap_as_public(), Ok(b));
}

#[test]
fn tagged_optional_comes_back() {
    let some: Option<Masked> = Reveal::from_public(Some(8));
    assert_eq!(some.unwrap_as_public(), Ok(Some(8)));
    let none: Option<Masked> = Reveal::from_public(None);
    assert_eq!(none.unwrap_as_public(), Ok(None));
}

#[test]
fn tagged_pair_comes_back() {
    let p: (Masked, usize) = Reveal::from_public((8, 2));
    assert_eq!(p.unwrap_as_public(), Ok((8, 2)));
}

#[test]
fn tagged_cell_comes_back() {
    let c: Rc<Masked> = Reveal::from_public(Rc::new(8));
    assert_eq!(c.unwrap_as_public(), Ok(Rc::new(8)));
}

#[test]
fn tagged_marker_comes_back() {
    let m: PhantomData<Masked> = Reveal::from_public(PhantomData);
    assert_eq!(m.unwrap_as_public(), Ok(PhantomData));
}

#[test]
fn tagged_map_comes_back() {
    let mut b: BTreeMap<u64, Vec<u64>> = BTreeMap::new();
    b.insert(5, vec![1, 2]);
    b.insert(2, vec![]);
    b.insert(9, vec![7]);
    let m: BTreeMap<Masked, Vec<Masked>> = Reveal::from_public(b.clone());
    assert_eq!(m.len(), 3);
    assert_eq!(m.unwrap_as_public(), Ok(b));
}

#[test]
fn tagged_nested_value_comes_back() {
    let b = vec![(Some(3u64), Rc::new(vec![1usize, 2])), (None, Rc::new(vec![]))];
    let v: Vec<(Option<Masked>, Rc<Vec<usize>>)> = Reveal::from_public(b.clone());
    assert_eq!(v.unwrap_as_public(), Ok(b));
}

#[test]
fn tagged_value_reveals_to_what_was_tagged() {
    let b = vec![Some(3u64), None, Some(0)];
    let v: Vec<Option<Masked>> = Reveal::from_public(b.clone());
    assert_eq!(v.revealed(), b);
}

#[test]
fn wrapped_share_is_not_public() {
    let v: Vec<Masked> = Reveal::from_add_shared(vec![3, 4]);
    assert_eq!(v.clone().unwrap_as_public(), Err(NotPublic));
    assert_eq!(v.revealed(), vec![3, 4]);
}

#[test]
fn refusal_can_be_copied_and_compared() {
    let e = NotPublic;
    let f = e;
    assert_eq!(e, f);
    assert_eq!(format!("{:?}", e), "NotPublic");
}
