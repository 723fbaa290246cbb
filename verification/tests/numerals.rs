use extraction_store::numerals::{to_decimal, to_lower_hex};

#[test]
fn lower_hex_has_no_prefix_and_no_leading_zeros() {
    assert_eq!(to_lower_hex(0), "0");
    assert_eq!(to_lower_hex(9), "9");
    assert_eq!(to_lower_hex(10), "a");
    assert_eq!(to_lower_hex(15), "f");
    assert_eq!(to_lower_hex(16), "10");
    assert_eq!(to_lower_hex(255), "ff");
    assert_eq!(to_lower_hex(0xdead_beef), "deadbeef");
    assert_eq!(to_lower_hex(u64::MAX), "ffffffffffffffff");
}

#[test]
fn lower_hex_agrees_with_the_formatter() {
    let mut v: u64 = 1;
    for _ in 0..200 {
        assert_eq!(to_lower_hex(v), format!("{:x}", v));
        v = v.wrapping_mul(6364136223846793005).wrapping_add(1442695040888963407);
    }
}

#[test]
fn decimal_has_no_leading_zeros() {
    assert_eq!(to_decimal(0), "0");
    assert_eq!(to_decimal(7), "7");
    assert_eq!(to_decimal(10), "10");
    assert_eq!(to_decimal(1234567890), "1234567890");
    assert_eq!(to_decimal(u128::MAX), "340282366920938463463374607431768211455");
}
