use mpc_algebra::{NotPublic, Reveal};
use ark_std::rc::Rc;

#[derive(Debug, Clone, PartialEq, Eq)]
struct Masked {
    value: u64,
    mask: u64,
}

impl Reveal for Masked {
    type Base = u64;

    fn revealed(self) -> u64 {
        self.value.wrapping_sub(self.mask)
    }

    fn from_add_shared(b: u64) -> Self {
        Masked { value: b.wrapping_add(1), mask: 1 }
    }

    fn from_public(b: u64) -> Self {
        Masked { value: b, mask: 0 }
    }

    fn unwrap_as_public(self) -> Result<u64, NotPublic> {
        if self.mask == 0 {
            Ok(self.value)
        } else {
            Err(NotPublic)
        }
    }
}

#[test]
fn cell_reveals_its_pointee() {
    let c = Rc::new(Masked { value: 9, mask: 2 });
    assert_eq!(*c.revealed(), 7);
}

#[test]
fn cell_leaves_other_holders_untouched() {
    let c = Rc::new(Masked { value: 9, mask: 2 });
    let other = c.clone();
    let b = c.revealed();
    assert_eq!(*b, 7);
    assert_eq!(*other, Masked { value: 9, mask: 2 });
    assert_eq!(Rc::strong_count(&other), 1);
}

#[test]
fn cell_from_public_makes_a_cell_of_its_own() {
    let b = Rc::new(5u64);
    let keep = b.clone();
    let c: Rc<Masked> = Reveal::from_public(b);
    assert_eq!(*c, Masked { value: 5, mask: 0 });
    assert_eq!(Rc::strong_count(&c), 1);
    assert_eq!(*keep, 5);
    assert_eq!(Rc::strong_count(&keep), 1);
}

#[test]
fn cell_from_add_shared_wraps_the_pointee() {
    let c: Rc<Masked> = Reveal::from_add_shared(Rc::new(5u64));
    assert_eq!(*c, Masked { value: 6, mask: 1 });
}

#[test]
fn cell_unwraps_a_public_pointee() {
    assert_eq!(Rc::new(Masked { value: 5, mask: 0 }).unwrap_as_public(), Ok(Rc::new(5)));
    assert_eq!(Rc::new(Masked { value: 5, mask: 1 }).unwrap_as_public(), Err(NotPublic));
}

#[test]
fn cell_of_a_sequence_reveals_every_element() {
    let c = Rc::new(vec![Masked { value: 9, mask: 2 }, Masked { value: 1, mask: 1 }]);
    assert_eq!(*c.revealed(), vec![7, 0]);
}
