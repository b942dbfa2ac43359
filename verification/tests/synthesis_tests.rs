use mcm::{
    a_op, huristic, max_bitwidth, preprocess, synthesize_multiplier_block,
    vertex_fundamental_set, AConfig, FromU64, NatSet, Odd, OddSet,
};

#[test]
fn preprocess_test() {
    let t = NatSet::from_u64([1, 2, 4, 6, 7]);
    let tp = preprocess(&t);
    assert_eq!(tp, OddSet::from_u64([1, 3, 7]));
}

#[test]
fn preprocess_power_of_two_test() {
    assert_eq!(preprocess(&NatSet::from_u64([1024])), OddSet::from_u64([1]));
    assert_eq!(preprocess(&NatSet::from_u64([12])), OddSet::from_u64([3]));
    assert_eq!(preprocess(&NatSet::from_u64([45])), OddSet::from_u64([45]));
}

#[test]
fn max_bitwidth_test() {
    assert_eq!(max_bitwidth(&OddSet::from_u64([3, 1, 7])), 3);
    assert_eq!(max_bitwidth(&OddSet::from_u64([1, 9])), 4);
}

#[test]
fn a_op_test() {
    let p = AConfig::new(1, 0, true).unwrap();
    let u = Odd::new(5).unwrap();
    let v = Odd::new(7).unwrap();
    assert_eq!(a_op(u, v, &p), Odd::new(17).unwrap());
}

#[test]
fn a_op_test_2() {
    let p = AConfig::new(0, 3, false).unwrap();
    let u = Odd::new(1).unwrap();
    let v = Odd::new(5).unwrap();
    assert_eq!(a_op(u, v, &p), Odd::new(39).unwrap());
}

#[test]
fn a_config_validation_test() {
    assert!(AConfig::new(1, 0, true).is_some());
    assert!(AConfig::new(0, 3, false).is_some());
    assert!(AConfig::new(2, 3, true).is_none());
    assert!(AConfig::new(1, 1, false).is_none());
    // The degenerate double-zero configuration passes validation; the even
    // sums it produces are discarded during fundamental-set generation.
    assert!(AConfig::new(0, 0, true).is_some());
}

#[test]
fn fundamental_set_test() {
    let r = OddSet::from_u64([1]);
    let w = OddSet::from_u64([1]);
    let f = vertex_fundamental_set(&r, &w, 2);
    assert_eq!(f, OddSet::from_u64([1, 3]));
    let f3 = vertex_fundamental_set(&r, &w, 3);
    assert_eq!(f3, OddSet::from_u64([1, 3, 5, 7]));
}

#[test]
fn fundamental_set_all_odd_test() {
    // a double-zero shift pair sums two odd operands; no even value may
    // survive into the fundamental set
    let r = OddSet::from_u64([1, 3]);
    let w = OddSet::from_u64([3]);
    let f = vertex_fundamental_set(&r, &w, 4);
    let n = f.len();
    let mut i: usize = 0;
    while i < n {
        assert_eq!(f.get(i).get() % 2, 1);
        i = i + 1;
    }
    assert!(!f.is_empty());
}

#[test]
fn huristic_bitlength_tie_test() {
    let r = OddSet::from_u64([1]);
    let s = OddSet::from_u64([1]);
    let t = OddSet::from_u64([3, 5]);
    let c = huristic(&r, &s, &t, 3);
    assert_eq!(c.get(), 3);
}

#[test]
fn huristic_value_tie_test() {
    let r = OddSet::from_u64([1]);
    let s = OddSet::from_u64([1]);
    let t = OddSet::from_u64([5, 7]);
    let c = huristic(&r, &s, &t, 3);
    assert_eq!(c.get(), 5);
}

#[test]
fn synthesize_empty_test() {
    let e: [u64; 0] = [];
    assert_eq!(synthesize_multiplier_block(&NatSet::from_u64(e)), OddSet::from_u64([1]));
}

#[test]
fn synthesize_unit_test() {
    assert_eq!(synthesize_multiplier_block(&NatSet::from_u64([1])), OddSet::from_u64([1]));
}

#[test]
fn synthesize_basic_test() {
    let r = synthesize_multiplier_block(&NatSet::from_u64([1, 3, 7]));
    assert_eq!(r, OddSet::from_u64([1, 3, 7]));
    assert!(r.contains(&Odd::new(1).unwrap()));
    assert!(r.contains(&Odd::new(3).unwrap()));
    assert!(r.contains(&Odd::new(7).unwrap()));
    let n = r.len();
    let mut i: usize = 0;
    while i < n {
        assert_eq!(r.get(i).get() % 2, 1);
        i = i + 1;
    }
    // every member other than 1 is one adder step over members realized in
    // a strictly earlier round: 3 = (1 << 1) + 1 and 7 = (1 << 3) - 1
    let one = Odd::new(1).unwrap();
    assert_eq!(a_op(one, one, &AConfig::new(1, 0, true).unwrap()).get(), 3);
    assert_eq!(a_op(one, one, &AConfig::new(3, 0, false).unwrap()).get(), 7);
}

#[test]
fn synthesize_heuristic_path_test() {
    // 45 is not one adder step from {1}, so the heuristic must force it
    let r = synthesize_multiplier_block(&NatSet::from_u64([45]));
    assert_eq!(r, OddSet::from_u64([1, 45]));
}

#[test]
fn synthesize_repeat_test() {
    let a = synthesize_multiplier_block(&NatSet::from_u64([6, 12, 13]));
    let b = synthesize_multiplier_block(&NatSet::from_u64([13, 6, 12]));
    assert_eq!(a, b);
    assert_eq!(a, OddSet::from_u64([1, 3, 13]));
}
