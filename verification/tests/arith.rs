use lps_core::arith::{div_floor, isqrt, round_quotient};
use lps_core::vector::Vector3;

#[test]
fn integer_square_roots() {
    assert_eq!(isqrt(0), 0);
    assert_eq!(isqrt(1), 1);
    assert_eq!(isqrt(2), 1);
    assert_eq!(isqrt(3), 1);
    assert_eq!(isqrt(4), 2);
    assert_eq!(isqrt(15), 3);
    assert_eq!(isqrt(16), 4);
    assert_eq!(isqrt(17), 4);
    assert_eq!(isqrt(1_000_000), 1_000);
    assert_eq!(isqrt(999_999), 999);
    assert_eq!(isqrt(u128::MAX), 0xFFFF_FFFF_FFFF_FFFF);
    assert_eq!(isqrt(0xFFFF_FFFF_FFFF_FFFF * 0xFFFF_FFFF_FFFF_FFFF), 0xFFFF_FFFF_FFFF_FFFF);
    assert_eq!(isqrt(0xFFFF_FFFF_FFFF_FFFF * 0xFFFF_FFFF_FFFF_FFFF - 1), 0xFFFF_FFFF_FFFF_FFFE);
}

#[test]
fn integer_square_root_brackets_its_argument() {
    for n in 0u128..2_000 {
        let r = isqrt(n);
        assert!(r * r <= n);
        assert!(n < (r + 1) * (r + 1));
    }
}

#[test]
fn floor_division() {
    assert_eq!(div_floor(7, 2), 3);
    assert_eq!(div_floor(-7, 2), -4);
    assert_eq!(div_floor(-8, 2), -4);
    assert_eq!(div_floor(8, 2), 4);
    assert_eq!(div_floor(0, 5), 0);
    assert_eq!(div_floor(-1, 5), -1);
    assert_eq!(div_floor(-5, 5), -1);
    assert_eq!(div_floor(-6, 5), -2);
    assert_eq!(div_floor(4, 5), 0);
    assert_eq!(div_floor(i128::MAX, 1), i128::MAX);
    assert_eq!(div_floor(i128::MIN + 1, 1), i128::MIN + 1);
    assert_eq!(div_floor(i128::MIN + 1, i128::MAX), -1);
}

#[test]
fn floor_division_agrees_with_euclid() {
    for n in -50i128..50 {
        for d in 1i128..12 {
            assert_eq!(div_floor(n, d), n.div_euclid(d));
        }
    }
}

#[test]
fn rounding_division() {
    assert_eq!(round_quotient(7, 2), 4);
    assert_eq!(round_quotient(-7, 2), -3);
    assert_eq!(round_quotient(5, 3), 2);
    assert_eq!(round_quotient(4, 3), 1);
    assert_eq!(round_quotient(-4, 3), -1);
    assert_eq!(round_quotient(-5, 3), -2);
    assert_eq!(round_quotient(0, 9), 0);
    assert_eq!(round_quotient(12, 4), 3);
    assert_eq!(round_quotient(-12, 4), -3);
    assert_eq!(round_quotient(1, 2), 1);
    assert_eq!(round_quotient(-1, 2), 0);
}

#[test]
fn vector_constructors() {
    let v = Vector3::new(1, -2, 3);
    assert_eq!((v.x, v.y, v.z), (1, -2, 3));
    assert_eq!(Vector3::zero(), Vector3::new(0, 0, 0));
}
