use mcm::{FromU64, Nat, NatSet, Odd, OddSet};

#[test]
fn from_u64_natural_set_test() {
    let mut expected = NatSet::new();
    expected.insert(Nat::new(1).unwrap());
    expected.insert(Nat::new(2).unwrap());
    expected.insert(Nat::new(3).unwrap());
    assert_eq!(NatSet::from_u64([0, 1, 1, 2, 3]), expected);
}

#[test]
fn from_u64_odd_set_test() {
    let mut expected = OddSet::new();
    expected.insert(Odd::new(1).unwrap());
    expected.insert(Odd::new(3).unwrap());
    assert_eq!(OddSet::from_u64([0, 1, 1, 2, 3]), expected);
}

#[test]
fn from_u64_slice_test() {
    let raw: [u64; 4] = [2, 4, 9, 9];
    let s = <OddSet as FromU64<&[u64]>>::from_u64(&raw[..]);
    assert_eq!(s, OddSet::from_u64([9]));
}

#[test]
fn odd_set_operations_test() {
    let mut a = OddSet::from_u64([1, 3, 5]);
    let b = OddSet::from_u64([3, 5, 7]);
    let i = a.intersection(&b);
    assert_eq!(i, OddSet::from_u64([3, 5]));
    a.extend(&b);
    assert_eq!(a, OddSet::from_u64([1, 3, 5, 7]));
    a.remove(&Odd::new(3).unwrap());
    assert_eq!(a, OddSet::from_u64([1, 5, 7]));
    assert!(a.contains(&Odd::new(5).unwrap()));
    assert!(!a.contains(&Odd::new(3).unwrap()));
    assert_eq!(a.len(), 3);
    assert!(!a.is_empty());
    assert!(OddSet::new().is_empty());
    let mut c = OddSet::new();
    c.clear();
    assert!(c.is_empty());
    c.insert(Odd::new(11).unwrap());
    c.insert(Odd::new(11).unwrap());
    assert_eq!(c.len(), 1);
    c.clear();
    assert!(c.is_empty());
}
