use mpc_algebra::{NotPublic, Reveal};
use std::collections::BTreeMap;
use std::rc::Rc;

/// An additive share that can be revealed, but whose type gives no way to
/// read it as public.
#[derive(Debug, Clone, PartialEq, Eq, PartialOrd, Ord)]
struct Share {
    value: u64,
    mask: u64,
}

impl Reveal for Share {
    type Base = u64;

    fn revealed(self) -> u64 {
        self.value.wrapping_sub(self.mask)
    }

    fn from_add_shared(b: u64) -> Self {
        Share { value: b, mask: 0 }
    }

    fn from_public(b: u64) -> Self {
        Share { value: b, mask: 0 }
    }
}

#[test]
fn unwrap_without_override_is_refused() {
    let s = Share { value: 12, mask: 5 };
    assert_eq!(s.unwrap_as_public(), Err(NotPublic));
}

#[test]
fn unwrap_of_a_tagged_value_without_override_is_refused() {
    let s = Share::from_public(12);
    assert_eq!(s.unwrap_as_public(), Err(NotPublic));
}

#[test]
fn sequence_with_a_refusing_element_is_refused() {
    let v = vec![Share { value: 1, mask: 0 }, Share { value: 2, mask: 0 }];
    assert_eq!(v.unwrap_as_public(), Err(NotPublic));
}

#[test]
fn empty_sequence_of_refusing_elements_is_public() {
    let v: Vec<Share> = Vec::new();
    assert_eq!(v.unwrap_as_public(), Ok(Vec::new()));
}

#[test]
fn present_refusing_value_is_refused() {
    assert_eq!(Some(Share { value: 3, mask: 1 }).unwrap_as_public(), Err(NotPublic));
}

#[test]
fn absent_refusing_value_is_public() {
    let none: Option<Share> = None;
    assert_eq!(none.unwrap_as_public(), Ok(None));
}

#[test]
fn pair_with_a_refusing_component_is_refused() {
    assert_eq!((7usize, Share { value: 3, mask: 1 }).unwrap_as_public(), Err(NotPublic));
    assert_eq!((Share { value: 3, mask: 1 }, 7usize).unwrap_as_public(), Err(NotPublic));
}

#[test]
fn cell_of_a_refusing_value_is_refused() {
    assert_eq!(Rc::new(Share { value: 3, mask: 1 }).unwrap_as_public(), Err(NotPublic));
}

#[test]
fn map_with_a_refusing_value_is_refused() {
    let mut m: BTreeMap<usize, Share> = BTreeMap::new();
    m.insert(1, Share { value: 3, mask: 1 });
    assert_eq!(m.unwrap_as_public(), Err(NotPublic));
}

#[test]
fn map_with_a_refusing_key_is_refused() {
    let mut m: BTreeMap<Share, usize> = BTreeMap::new();
    m.insert(Share { value: 3, mask: 1 }, 1);
    assert_eq!(m.unwrap_as_public(), Err(NotPublic));
}

#[test]
fn empty_map_of_refusing_values_is_public() {
    let m: BTreeMap<usize, Share> = BTreeMap::new();
    assert_eq!(m.unwrap_as_public(), Ok(BTreeMap::new()));
}

#[test]
fn refusing_values_can_still_be_revealed() {
    let v = vec![Share { value: 12, mask: 5 }, Share { value: 9, mask: 9 }];
    assert_eq!(v.revealed(), vec![7, 0]);
}
