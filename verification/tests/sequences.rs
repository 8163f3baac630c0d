use mpc_algebra::{NotPublic, Reveal};
use std::cell::RefCell;
use std::rc::Rc;

/// A share that is read as `value - mask`, and that can be unwrapped only
/// where its mask is zero.
#[derive(Debug, Clone, PartialEq, Eq)]
struct Masked {
    value: u64,
    mask: u64,
}

impl Reveal for Masked {
    type Base = u64;

    fn revealed(self) -> u64 {
        self.value.wrapping_sub(self.mask)
    }

    fn from_add_shared(b: u64) -> Self {
        Masked { value: b.wrapping_add(1), mask: 1 }
    }

    fn from_public(b: u64) -> Self {
        Masked { value: b, mask: 0 }
    }

    fn unwrap_as_public(self) -> Result<u64, NotPublic> {
        if self.mask == 0 {
            Ok(self.value)
        } else {
            Err(NotPublic)
        }
    }
}

/// Notes in a shared log each value that is unwrapped.
#[derive(Debug, Clone)]
struct Logged {
    value: u64,
    public: bool,
    log: Rc<RefCell<Vec<u64>>>,
}

impl Reveal for Logged {
    type Base = u64;

    fn revealed(self) -> u64 {
        self.log.borrow_mut().push(self.value);
        self.value
    }

    fn from_add_shared(b: u64) -> Self {
        Logged { value: b, public: false, log: Rc::new(RefCell::new(Vec::new())) }
    }

    fn from_public(b: u64) -> Self {
        Logged { value: b, public: true, log: Rc::new(RefCell::new(Vec::new())) }
    }

    fn unwrap_as_public(self) -> Result<u64, NotPublic> {
        self.log.borrow_mut().push(self.value);
        if self.public {
            Ok(self.value)
        } else {
            Err(NotPublic)
        }
    }
}

#[test]
fn sequence_reveals_each_element_in_place() {
    let v = vec![
        Masked { value: 10, mask: 3 },
        Masked { value: 5, mask: 5 },
        Masked { value: 100, mask: 1 },
    ];
    assert_eq!(v.revealed(), vec![7, 0, 99]);
}

#[test]
fn sequence_keeps_its_length() {
    for n in 0..20usize {
        let v: Vec<usize> = (0..n).collect();
        assert_eq!(v.revealed().len(), n);
    }
}

#[test]
fn empty_sequence_reveals_to_empty() {
    let v: Vec<Masked> = Vec::new();
    assert_eq!(v.revealed(), Vec::<u64>::new());
}

#[test]
fn sequence_of_indices_reveals_to_itself() {
    assert_eq!(vec![3usize, 1, 4, 1, 5].revealed(), vec![3, 1, 4, 1, 5]);
}

#[test]
fn nested_sequences_keep_their_shape() {
    let v = vec![vec![1usize, 2], vec![], vec![3]];
    assert_eq!(v.revealed(), vec![vec![1, 2], vec![], vec![3]]);
}

#[test]
fn sequence_from_public_tags_each_element() {
    let v: Vec<Masked> = Reveal::from_public(vec![4, 8]);
    assert_eq!(v, vec![Masked { value: 4, mask: 0 }, Masked { value: 8, mask: 0 }]);
}

#[test]
fn sequence_from_add_shared_wraps_each_element() {
    let v: Vec<Masked> = Reveal::from_add_shared(vec![4, 8]);
    assert_eq!(v, vec![Masked { value: 5, mask: 1 }, Masked { value: 9, mask: 1 }]);
}

#[test]
fn sequence_of_public_elements_unwraps() {
    let v = vec![Masked { value: 4, mask: 0 }, Masked { value: 8, mask: 0 }];
    assert_eq!(v.unwrap_as_public(), Ok(vec![4, 8]));
}

#[test]
fn sequence_with_one_shared_element_is_refused() {
    let v = vec![
        Masked { value: 4, mask: 0 },
        Masked { value: 8, mask: 2 },
        Masked { value: 9, mask: 0 },
    ];
    assert_eq!(v.unwrap_as_public(), Err(NotPublic));
}

#[test]
fn sequence_reveals_in_order() {
    let log = Rc::new(RefCell::new(Vec::new()));
    let v: Vec<Logged> = [3u64, 1, 2]
        .iter()
        .map(|&value| Logged { value, public: true, log: log.clone() })
        .collect();
    assert_eq!(v.revealed(), vec![3, 1, 2]);
    assert_eq!(*log.borrow(), vec![3, 1, 2]);
}

#[test]
fn sequence_unwrap_stops_at_the_first_refusal() {
    let log = Rc::new(RefCell::new(Vec::new()));
    let v = vec![
        Logged { value: 1, public: true, log: log.clone() },
        Logged { value: 2, public: false, log: log.clone() },
        Logged { value: 3, public: true, log: log.clone() },
    ];
    assert_eq!(v.unwrap_as_public(), Err(NotPublic));
    assert_eq!(*log.borrow(), vec![1, 2]);
}
