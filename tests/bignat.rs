use signatures::bignat::BigNat;

#[test]
fn from_u64_splits_into_limbs() {
    let n = BigNat::from_u64(0x1_0000_0005);
    let limbs = n.limbs();
    assert_eq!(limbs[0], 5);
    assert_eq!(limbs[1], 1);
    assert_eq!(n, BigNat::from_limbs(vec![5, 1]));
}

#[test]
fn trailing_zero_limbs_do_not_change_the_value() {
    assert_eq!(BigNat::from_limbs(vec![7, 0, 0]), BigNat::from_u64(7));
    assert_eq!(BigNat::zero(), BigNat::from_limbs(vec![]));
    assert!(BigNat::zero().is_zero());
    assert!(!BigNat::from_u64(1).is_zero());
}

#[test]
fn arithmetic_on_large_values() {
    let a = BigNat::from_u64(u64::MAX);
    let one = BigNat::from_u64(1);
    let sum = a.plus(&one);
    assert_eq!(sum, BigNat::from_limbs(vec![0, 0, 1]));
    assert_eq!(sum.minus(&one), a);
    let square = a.times(&a);
    // (2^64 - 1)^2 = 2^128 - 2^65 + 1
    assert_eq!(square, BigNat::from_limbs(vec![1, 0, 0xFFFF_FFFE, 0xFFFF_FFFF]));
    assert_eq!(square.modulo(&BigNat::from_u64(1000)), BigNat::from_u64(225));
}

#[test]
fn pow_mod_small_values() {
    let r = BigNat::from_u64(3).pow_mod(&BigNat::from_u64(4), &BigNat::from_u64(5));
    assert_eq!(r, BigNat::from_u64(1));
    let r = BigNat::from_u64(2).pow_mod(&BigNat::from_u64(10), &BigNat::from_u64(1000));
    assert_eq!(r, BigNat::from_u64(24));
}

#[test]
fn comparisons_follow_the_values() {
    let small = BigNat::from_u64(3);
    let large = BigNat::from_limbs(vec![0, 1]);
    assert!(small < large);
    assert!(small.less_than(&large));
    assert!(!large.less_than(&small));
    assert!(!small.less_than(&small));
    assert!(small.equals(&BigNat::from_u64(3)));
    assert!(small != large);
}
