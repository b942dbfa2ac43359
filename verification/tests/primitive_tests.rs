use mcm::{Nat, Odd};

#[test]
fn odd_new_test() {
    assert_eq!(Odd::new(0), None);
    assert!(Odd::new(1).is_some());
    assert_eq!(Odd::new(1).unwrap().get(), 1);
    assert_eq!(Odd::new(2), None);
}

#[test]
fn used_bits_test() {
    assert_eq!(Odd::new(1).unwrap().used_bits(), 1);
    assert_eq!(Odd::new(3).unwrap().used_bits(), 2);
    assert_eq!(Odd::new(5).unwrap().used_bits(), 3);
    assert_eq!(Odd::new(7).unwrap().used_bits(), 3);
    assert_eq!(Odd::new(9).unwrap().used_bits(), 4);
}

#[test]
fn used_bits_full_width_test() {
    assert_eq!(Odd::new(u64::MAX).unwrap().used_bits(), 64);
}

#[test]
fn nat_new_test() {
    assert!(Nat::new(0).is_none());
    assert!(Nat::new(1).is_some());
    assert_eq!(Nat::new(5).unwrap().get(), 5);
}
