use sat2d::{Scalar, Vector2d};

fn scalar(x: f64) -> Scalar {
    Scalar { bits: x.to_bits() }
}

fn number(s: Scalar) -> f64 {
    f64::from_bits(s.bits)
}

fn samples() -> Vec<f64> {
    vec![
        0.0,
        -0.0,
        1.0,
        -1.0,
        0.5,
        -0.5,
        10.0,
        -10.0,
        1e-310,
        -1e-310,
        5e-324,
        -5e-324,
        1e300,
        -1e300,
        f64::MAX,
        f64::MIN,
        f64::MIN_POSITIVE,
        f64::EPSILON,
        f64::INFINITY,
        f64::NEG_INFINITY,
        f64::NAN,
        -f64::NAN,
        3.141592653589793,
        -2.718281828459045,
    ]
}

#[test]
fn less_than_orders_patterns_as_numbers() {
    for a in samples() {
        for b in samples() {
            assert_eq!(scalar(a).less_than(&scalar(b)), a < b, "{} < {}", a, b);
        }
    }
}

#[test]
fn greater_than_orders_patterns_as_numbers() {
    for a in samples() {
        for b in samples() {
            assert_eq!(scalar(a).greater_than(&scalar(b)), a > b, "{} > {}", a, b);
        }
    }
}

#[test]
fn at_most_orders_patterns_as_numbers() {
    for a in samples() {
        for b in samples() {
            assert_eq!(scalar(a).at_most(&scalar(b)), a <= b, "{} <= {}", a, b);
        }
    }
}

#[test]
fn the_two_zeros_are_equal_in_order() {
    let plus = scalar(0.0);
    let minus = scalar(-0.0);
    assert_ne!(plus, minus);
    assert!(!plus.less_than(&minus));
    assert!(!minus.less_than(&plus));
    assert!(plus.at_most(&minus));
    assert!(minus.at_most(&plus));
}

#[test]
fn what_is_not_a_number_is_told_apart() {
    for a in samples() {
        assert_eq!(scalar(a).not_a_number(), a.is_nan(), "{}", a);
    }
    assert!(Scalar { bits: 0x7FF0_0000_0000_0001 }.not_a_number());
    assert!(Scalar { bits: 0xFFFF_FFFF_FFFF_FFFF }.not_a_number());
    assert!(!Scalar { bits: 0x7FF0_0000_0000_0000 }.not_a_number());
    assert!(!Scalar { bits: 0xFFF0_0000_0000_0000 }.not_a_number());
}

#[test]
fn what_is_not_a_number_compares_with_nothing() {
    let nan = scalar(f64::NAN);
    let one = scalar(1.0);
    assert!(!nan.less_than(&one));
    assert!(!one.less_than(&nan));
    assert!(!nan.greater_than(&one));
    assert!(!nan.at_most(&nan));
    assert!(!nan.at_most(&one));
    assert!(!one.at_most(&nan));
}

#[test]
fn negated_flips_the_sign_and_nothing_else() {
    for a in samples() {
        assert_eq!(scalar(a).negated().bits, (-a).to_bits(), "{}", a);
        assert_eq!(scalar(a).negated().negated(), scalar(a));
    }
    assert_eq!(scalar(1.5).negated(), scalar(-1.5));
    assert_eq!(scalar(0.0).negated().bits, 0x8000_0000_0000_0000);
}

#[test]
fn absolute_clears_the_sign_and_nothing_else() {
    for a in samples() {
        assert_eq!(scalar(a).absolute().bits, a.abs().to_bits(), "{}", a);
    }
    assert_eq!(scalar(-7.25).absolute(), scalar(7.25));
    assert_eq!(scalar(7.25).absolute(), scalar(7.25));
    assert_eq!(scalar(-0.0).absolute().bits, 0);
}

#[test]
fn named_numbers_have_their_patterns() {
    assert_eq!(number(Scalar::zero()), 0.0);
    assert_eq!(Scalar::zero().bits, 0);
    assert_eq!(number(Scalar::one()), 1.0);
    assert_eq!(number(Scalar::greatest_finite()), f64::MAX);
    assert_eq!(number(Scalar::least_finite()), f64::MIN);
    assert_eq!(sat2d::scalar::SIGN_BIT, (-0.0f64).to_bits());
    assert_eq!(sat2d::scalar::INFINITY_BITS, f64::INFINITY.to_bits());
    assert_eq!(sat2d::scalar::ONE_BITS, 1.0f64.to_bits());
    assert_eq!(sat2d::scalar::GREATEST_FINITE_BITS, f64::MAX.to_bits());
    assert_eq!(sat2d::scalar::LEAST_FINITE_BITS, f64::MIN.to_bits());
}

#[test]
fn perp_turns_by_a_quarter() {
    let v = Vector2d { x: scalar(3.0), y: scalar(4.0) };
    let p = v.perp();
    assert_eq!(number(p.x), 4.0);
    assert_eq!(number(p.y), -3.0);
    let q = p.perp();
    assert_eq!(q, v.reverse());
    let zero = Vector2d { x: scalar(0.0), y: scalar(0.0) }.perp();
    assert_eq!(zero.x.bits, 0.0f64.to_bits());
    assert_eq!(zero.y.bits, (-0.0f64).to_bits());
}

#[test]
fn reverse_turns_round() {
    let v = Vector2d { x: scalar(3.0), y: scalar(-4.0) };
    let r = v.reverse();
    assert_eq!(number(r.x), -3.0);
    assert_eq!(number(r.y), 4.0);
    assert_eq!(r.reverse(), v);
}

#[test]
fn truncated_cuts_as_a_cast_does() {
    for a in samples() {
        assert_eq!(scalar(a).truncated(), a as i32, "{}", a);
    }
    let more = [
        0.999999,
        1.0,
        1.5,
        1.999999,
        2.0,
        -0.999999,
        -1.999999,
        10000.0,
        10000.9,
        9999.999999999,
        35355.33905932738,
        2147483646.5,
        2147483647.0,
        2147483647.5,
        2147483648.0,
        2147483649.0,
        -2147483647.5,
        -2147483648.0,
        -2147483648.5,
        -2147483649.0,
        4294967296.0,
        1e10,
        -1e10,
        123456789.987654321,
        -123456789.987654321,
        4503599627370496.0,
        9007199254740992.0,
    ];
    for a in more {
        assert_eq!(scalar(a).truncated(), a as i32, "{}", a);
    }
    let mut x = 1.0e-3;
    while x < 1.0e12 {
        assert_eq!(scalar(x).truncated(), x as i32, "{}", x);
        assert_eq!(scalar(-x).truncated(), (-x) as i32, "{}", -x);
        x *= 1.37;
    }
}

#[test]
fn truncated_has_exact_values() {
    assert_eq!(scalar(10.0 * 1000.0).truncated(), 10000);
    assert_eq!(scalar(2.0004 * 1000.0).truncated(), 2000);
    assert_eq!(scalar(-7.9).truncated(), -7);
    assert_eq!(scalar(0.0).truncated(), 0);
    assert_eq!(scalar(f64::NAN).truncated(), 0);
    assert_eq!(scalar(f64::INFINITY).truncated(), i32::MAX);
    assert_eq!(scalar(f64::NEG_INFINITY).truncated(), i32::MIN);
}

#[test]
fn normalise_takes_the_division_only_where_there_is_a_length() {
    let v = Vector2d { x: scalar(3.0), y: scalar(4.0) };
    let shortened = Vector2d { x: scalar(0.6), y: scalar(0.8) };
    assert_eq!(v.normalise(scalar(5.0), shortened), shortened);
    assert_eq!(v.normalise(scalar(0.0), shortened), v);
    assert_eq!(v.normalise(scalar(-0.0), shortened), v);
    assert_eq!(v.normalise(scalar(f64::NAN), shortened), v);
    assert_eq!(v.normalise(scalar(f64::INFINITY), shortened), shortened);
    assert_eq!(v.normalise(scalar(5e-324), shortened), shortened);
}
