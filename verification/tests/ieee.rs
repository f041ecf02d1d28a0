use binlang::bincore::data::ieee::{eq, le, lt, nan};

fn samples() -> Vec<f64> {
    vec![
        0.0,
        -0.0,
        1.0,
        -1.0,
        1.5,
        -1.5,
        2.0,
        f64::MIN_POSITIVE,
        -f64::MIN_POSITIVE,
        5e-324,
        -5e-324,
        f64::MAX,
        f64::MIN,
        f64::INFINITY,
        f64::NEG_INFINITY,
        f64::NAN,
        -f64::NAN,
        f64::from_bits(0x7ff0_0000_0000_0001),
        f64::from_bits(0xfff8_0000_0000_0000),
        3.141592653589793,
        1e300,
        -1e300,
    ]
}

#[test]
fn comparisons_agree_with_the_hardware_on_every_pair() {
    for a in samples() {
        for b in samples() {
            assert_eq!(eq(a.to_bits(), b.to_bits()), a == b, "{a} == {b}");
            assert_eq!(lt(a.to_bits(), b.to_bits()), a < b, "{a} < {b}");
            assert_eq!(le(a.to_bits(), b.to_bits()), a <= b, "{a} <= {b}");
        }
    }
}

#[test]
fn nan_is_recognised() {
    for a in samples() {
        assert_eq!(nan(a.to_bits()), a.is_nan(), "{a}");
    }
}

#[test]
fn the_two_zeros_are_equal() {
    assert!(eq(0.0f64.to_bits(), (-0.0f64).to_bits()));
    assert!(!lt((-0.0f64).to_bits(), 0.0f64.to_bits()));
    assert!(le(0.0f64.to_bits(), (-0.0f64).to_bits()));
}

#[test]
fn nan_equals_nothing() {
    let n = f64::NAN.to_bits();
    assert!(!eq(n, n));
    assert!(!lt(n, 1.0f64.to_bits()));
    assert!(!le(n, n));
}
