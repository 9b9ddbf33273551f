use uplc::decimal::{append_nat_decimal, digit_str, signed_decimal, unsigned_decimal};
use uplc::integer::{divide_by_ten, limbs_are_zero, Integer};

#[test]
fn digits() {
    let all: Vec<&str> = (0u8..10).map(digit_str).collect();
    assert_eq!(all, vec!["0", "1", "2", "3", "4", "5", "6", "7", "8", "9"]);
}

#[test]
fn unsigned_numerals() {
    assert_eq!(unsigned_decimal(0), "0");
    assert_eq!(unsigned_decimal(7), "7");
    assert_eq!(unsigned_decimal(10), "10");
    assert_eq!(unsigned_decimal(1002003), "1002003");
    assert_eq!(unsigned_decimal(u128::MAX), "340282366920938463463374607431768211455");
}

#[test]
fn numeral_is_appended() {
    let mut s = String::from("v");
    append_nat_decimal(&mut s, 120);
    assert_eq!(s, "v120");
}

#[test]
fn signed_numerals() {
    assert_eq!(signed_decimal(0), "0");
    assert_eq!(signed_decimal(-1), "-1");
    assert_eq!(signed_decimal(42), "42");
    assert_eq!(signed_decimal(i128::MAX), "170141183460469231731687303715884105727");
    assert_eq!(signed_decimal(i128::MIN), "-170141183460469231731687303715884105728");
}

#[test]
fn integer_from_machine_number() {
    assert_eq!(Integer::from_i128(0).to_decimal(), "0");
    assert_eq!(Integer::from_i128(-42).to_decimal(), "-42");
    assert_eq!(Integer::from_i128(4294967296).to_decimal(), "4294967296");
    assert_eq!(
        Integer::from_i128(i128::MIN).to_decimal(),
        "-170141183460469231731687303715884105728"
    );
    assert_eq!(
        Integer::from_i128(i128::MAX).to_decimal(),
        "170141183460469231731687303715884105727"
    );
    let m = Integer::from_i128(-4294967297);
    assert!(m.negative);
    assert_eq!(m.magnitude, vec![1, 1, 0, 0]);
}

#[test]
fn integer_beyond_machine_numbers() {
    // 2^128 and 2^160 - 1.
    let a = Integer::new(false, vec![0, 0, 0, 0, 1]);
    assert_eq!(a.to_decimal(), "340282366920938463463374607431768211456");
    let b = Integer::new(true, vec![u32::MAX; 5]);
    assert_eq!(b.to_decimal(), "-1461501637330902918203684832716283019655932542975");
}

#[test]
fn integer_zero_has_no_sign() {
    assert_eq!(Integer::new(true, Vec::new()).to_decimal(), "0");
    assert_eq!(Integer::new(true, vec![0, 0]).to_decimal(), "0");
    assert_eq!(Integer::new(false, Vec::new()).to_decimal(), "0");
}

#[test]
fn integer_leading_zero_limbs() {
    assert_eq!(Integer::new(false, vec![1000, 0, 0]).to_decimal(), "1000");
    assert_eq!(Integer::new(true, vec![9, 0]).to_decimal(), "-9");
}

#[test]
fn limbs_divided_by_ten() {
    // 2^32 + 5 = 4294967301.
    let mut limbs = vec![5, 1];
    let rem = divide_by_ten(&mut limbs);
    assert_eq!(rem, 1);
    assert_eq!(limbs, vec![429496730, 0]);
    let mut none: Vec<u32> = Vec::new();
    assert_eq!(divide_by_ten(&mut none), 0);
    assert!(none.is_empty());
}

#[test]
fn zero_limbs() {
    assert!(limbs_are_zero(&Vec::new()));
    assert!(limbs_are_zero(&vec![0, 0, 0]));
    assert!(!limbs_are_zero(&vec![0, 0, 1]));
}
