use resonant_engine::ordinal::code_from_ordinal;
use resonant_engine::ordinal::ordinal_from_code;
use resonant_engine::ordinal::SIGN;

#[test]
fn positive_codes_are_their_own_ordinals() {
    assert_eq!(ordinal_from_code(0), 0);
    assert_eq!(ordinal_from_code(1), 1);
    assert_eq!(ordinal_from_code(SIGN - 1), i64::MAX);
}

#[test]
fn negative_codes_count_down_from_minus_one() {
    assert_eq!(ordinal_from_code(SIGN), -1);
    assert_eq!(ordinal_from_code(SIGN + 1), -2);
    assert_eq!(ordinal_from_code(u64::MAX), i64::MIN);
}

#[test]
fn code_from_ordinal_is_the_inverse() {
    for code in [0u64, 1, 2, 12345, SIGN - 1, SIGN, SIGN + 1, SIGN + 12345, u64::MAX] {
        assert_eq!(code_from_ordinal(ordinal_from_code(code)), code);
    }
    for ordinal in [i64::MIN, i64::MIN + 1, -1000, -2, -1, 0, 1, 2, 1000, i64::MAX] {
        assert_eq!(ordinal_from_code(code_from_ordinal(ordinal)), ordinal);
    }
}

#[test]
fn ordinals_stand_as_the_numbers_do() {
    let xs = [
        f64::NEG_INFINITY,
        f64::MIN,
        -3.0,
        -2.0,
        -0.2,
        -1e-300,
        -0.0,
        0.0,
        1e-300,
        0.2,
        0.5,
        3.38,
        f64::MAX,
        f64::INFINITY,
    ];
    for w in xs.windows(2) {
        assert!(ordinal_from_code(w[0].to_bits()) < ordinal_from_code(w[1].to_bits()));
    }
    for x in xs {
        let back = f64::from_bits(code_from_ordinal(ordinal_from_code(x.to_bits())));
        assert_eq!(back.to_bits(), x.to_bits());
    }
}
