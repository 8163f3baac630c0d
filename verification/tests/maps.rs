use mpc_algebra::{NotPublic, Reveal};
use std::cell::RefCell;
use ark_std::collections::BTreeMap;
use std::rc::Rc;

/// A share that is read as `value - mask`, and that can be unwrapped only
/// where its mask is zero. Shares are ordered by value, then by mask.
#[derive(Debug, Clone, PartialEq, Eq, PartialOrd, Ord)]
struct Masked {
    value: u64,
    mask: u64,
}

impl Reveal for Masked {
    type Base = u64;

    fn revealed(self) -> u64 {
        self.value.wrapping_sub(self.mask)
    }

    fn from_add_shared(b: u64) -> Self {
        Masked { value: b.wrapping_add(1), mask: 1 }
    }

    fn from_public(b: u64) -> Self {
        Masked { value: b, mask: 0 }
    }

    fn unwrap_as_public(self) -> Result<u64, NotPublic> {
        if self.mask == 0 {
            Ok(self.value)
        } else {
            Err(NotPublic)
        }
    }
}

/// Notes in a shared log each value that is converted.
#[derive(Debug, Clone)]
struct Logged {
    value: u64,
    public: bool,
    log: Rc<RefCell<Vec<u64>>>,
}

impl Reveal for Logged {
    type Base = u64;

    fn revealed(self) -> u64 {
        self.log.borrow_mut().push(self.value);
        self.value
    }

    fn from_add_shared(b: u64) -> Self {
        Logged { value: b, public: false, log: Rc::new(RefCell::new(Vec::new())) }
    }

    fn from_public(b: u64) -> Self {
        Logged { value: b, public: true, log: Rc::new(RefCell::new(Vec::new())) }
    }

    fn unwrap_as_public(self) -> Result<u64, NotPublic> {
        self.log.borrow_mut().push(self.value);
        if self.public {
            Ok(self.value)
        } else {
            Err(NotPublic)
        }
    }
}

fn map_of<K: Ord, V>(entries: Vec<(K, V)>) -> BTreeMap<K, V> {
    let mut m = BTreeMap::new();
    for (k, v) in entries {
        m.insert(k, v);
    }
    m
}

#[test]
fn map_reveals_each_key_and_each_value() {
    let m = map_of(vec![
        (Masked { value: 11, mask: 1 }, Masked { value: 9, mask: 2 }),
        (Masked { value: 25, mask: 5 }, Masked { value: 5, mask: 5 }),
    ]);
    assert_eq!(m.revealed(), map_of(vec![(10, 7), (20, 0)]));
}

#[test]
fn map_keeps_its_keys_where_the_keys_are_indices() {
    let m = map_of(vec![
        (3usize, Masked { value: 9, mask: 2 }),
        (1usize, Masked { value: 5, mask: 5 }),
        (2usize, Masked { value: 8, mask: 0 }),
    ]);
    let b = m.revealed();
    assert_eq!(b.len(), 3);
    assert_eq!(b.keys().copied().collect::<Vec<usize>>(), vec![1, 2, 3]);
    assert_eq!(b, map_of(vec![(1, 0), (2, 8), (3, 7)]));
}

#[test]
fn empty_map_reveals_to_empty() {
    let m: BTreeMap<usize, Masked> = BTreeMap::new();
    assert_eq!(m.revealed(), BTreeMap::new());
}

#[test]
fn map_of_indices_reveals_to_itself() {
    let m = map_of(vec![(5usize, 50usize), (1, 10), (3, 30)]);
    assert_eq!(m.clone().revealed(), m);
}

#[test]
fn large_map_keeps_every_entry() {
    let mut m: BTreeMap<usize, Masked> = BTreeMap::new();
    let mut expected: BTreeMap<usize, u64> = BTreeMap::new();
    for i in 0..1000usize {
        let k = (i * 7919) % 1000;
        m.insert(k, Masked { value: k as u64 + 3, mask: 3 });
        expected.insert(k, k as u64);
    }
    assert_eq!(m.len(), 1000);
    assert_eq!(m.revealed(), expected);
}

#[test]
fn where_two_keys_reveal_to_one_the_greater_key_keeps_its_value() {
    // Both keys reveal to 4; (6, 2) is the greater of the two.
    let m = map_of(vec![
        (Masked { value: 6, mask: 2 }, 60usize),
        (Masked { value: 5, mask: 1 }, 50usize),
        (Masked { value: 9, mask: 0 }, 90usize),
    ]);
    assert_eq!(m.revealed(), map_of(vec![(4, 60), (9, 90)]));
}

#[test]
fn map_converts_its_entries_in_increasing_key_order() {
    let log = Rc::new(RefCell::new(Vec::new()));
    let m = map_of(vec![
        (3usize, Logged { value: 30, public: true, log: log.clone() }),
        (1usize, Logged { value: 10, public: true, log: log.clone() }),
        (2usize, Logged { value: 20, public: true, log: log.clone() }),
    ]);
    assert_eq!(m.revealed(), map_of(vec![(1, 10), (2, 20), (3, 30)]));
    assert_eq!(*log.borrow(), vec![10, 20, 30]);
}

#[test]
fn map_from_public_tags_each_entry() {
    let m: BTreeMap<usize, Masked> = Reveal::from_public(map_of(vec![(2, 7), (1, 0)]));
    assert_eq!(
        m,
        map_of(vec![(1, Masked { value: 0, mask: 0 }), (2, Masked { value: 7, mask: 0 })])
    );
}

#[test]
fn map_from_add_shared_wraps_each_entry() {
    let m: BTreeMap<Masked, Masked> = Reveal::from_add_shared(map_of(vec![(2, 7), (1, 0)]));
    assert_eq!(
        m,
        map_of(vec![
            (Masked { value: 2, mask: 1 }, Masked { value: 1, mask: 1 }),
            (Masked { value: 3, mask: 1 }, Masked { value: 8, mask: 1 }),
        ])
    );
}

#[test]
fn map_of_public_entries_unwraps() {
    let m = map_of(vec![
        (Masked { value: 2, mask: 0 }, Masked { value: 7, mask: 0 }),
        (Masked { value: 1, mask: 0 }, Masked { value: 0, mask: 0 }),
    ]);
    assert_eq!(m.unwrap_as_public(), Ok(map_of(vec![(1, 0), (2, 7)])));
}

#[test]
fn map_with_a_shared_value_is_refused() {
    let m = map_of(vec![
        (1usize, Masked { value: 7, mask: 0 }),
        (2usize, Masked { value: 7, mask: 1 }),
    ]);
    assert_eq!(m.unwrap_as_public(), Err(NotPublic));
}

#[test]
fn map_with_a_shared_key_is_refused() {
    let m = map_of(vec![
        (Masked { value: 7, mask: 0 }, 1usize),
        (Masked { value: 7, mask: 1 }, 2usize),
    ]);
    assert_eq!(m.unwrap_as_public(), Err(NotPublic));
}

#[test]
fn map_unwrap_stops_at_the_first_refusal_in_key_order() {
    let log = Rc::new(RefCell::new(Vec::new()));
    let m = map_of(vec![
        (3usize, Logged { value: 30, public: true, log: log.clone() }),
        (2usize, Logged { value: 20, public: false, log: log.clone() }),
        (1usize, Logged { value: 10, public: true, log: log.clone() }),
    ]);
    assert_eq!(m.unwrap_as_public(), Err(NotPublic));
    assert_eq!(*log.borrow(), vec![10, 20]);
}

#[test]
fn map_of_sequences_keeps_the_shape_of_every_value() {
    let m = map_of(vec![
        (1usize, vec![Masked { value: 9, mask: 2 }]),
        (2usize, vec![]),
        (3usize, vec![Masked { value: 1, mask: 1 }, Masked { value: 2, mask: 1 }]),
    ]);
    assert_eq!(m.revealed(), map_of(vec![(1, vec![7]), (2, vec![]), (3, vec![0, 1])]));
}
