use laminax_kpl::number::{
    abs, from_whole, negate, not_a_number, number_less, number_less_or_equal, numbers_equal,
    small_integer, zero, EXACT, INFINITY, ONE, SIGN, ZERO,
};

fn samples() -> Vec<f64> {
    let mut values = vec![
        0.0,
        -0.0,
        1.0,
        -1.0,
        0.5,
        -0.5,
        1.5,
        2.0,
        3.0,
        7.0,
        -7.25,
        0.1,
        1.0 / 3.0,
        255.0,
        1024.0,
        1e15,
        1e16,
        1e300,
        -1e300,
        4503599627370496.0,
        4503599627370497.0,
        4503599627370495.5,
        9007199254740992.0,
        9007199254740994.0,
        9223372036854775807.0,
        -9223372036854775808.0,
        9223372036854774784.0,
        -9223372036854774784.0,
        18446744073709551616.0,
        f64::MIN_POSITIVE,
        f64::MIN_POSITIVE / 4.0,
        f64::MAX,
        f64::MIN,
        f64::EPSILON,
        f64::INFINITY,
        f64::NEG_INFINITY,
        f64::NAN,
        -f64::NAN,
    ];
    values.push(f64::from_bits(0x7ff0_0000_0000_0001));
    values.push(f64::from_bits(0xfff8_0000_0000_0000));
    values
}

#[test]
fn order_and_equality_are_those_of_the_numbers() {
    for a in samples() {
        for b in samples() {
            let (x, y) = (a.to_bits(), b.to_bits());
            assert_eq!(numbers_equal(x, y), a == b, "{} == {}", a, b);
            assert_eq!(number_less(x, y), a < b, "{} < {}", a, b);
            assert_eq!(number_less_or_equal(x, y), a <= b, "{} <= {}", a, b);
        }
    }
}

#[test]
fn sign_changes_are_those_of_the_numbers() {
    for a in samples() {
        assert_eq!(negate(a.to_bits()), (-a).to_bits(), "-{}", a);
        assert_eq!(abs(a.to_bits()), a.abs().to_bits(), "abs {}", a);
        assert_eq!(negate(negate(a.to_bits())), a.to_bits());
    }
}

#[test]
fn zero_and_not_a_number_are_recognised() {
    for a in samples() {
        assert_eq!(zero(a.to_bits()), a == 0.0, "{}", a);
        assert_eq!(not_a_number(a.to_bits()), a.is_nan(), "{}", a);
    }
}

#[test]
fn constants_are_the_bits_they_name() {
    assert_eq!(ZERO, 0.0_f64.to_bits());
    assert_eq!(ONE, 1.0_f64.to_bits());
    assert_eq!(INFINITY, f64::INFINITY.to_bits());
    assert_eq!(SIGN, (-0.0_f64).to_bits());
    assert_eq!(EXACT, 9007199254740992);
}

#[test]
fn whole_numbers_below_two_to_the_63_are_found() {
    for a in samples() {
        let whole = a.fract() == 0.0 && a.abs() < 9223372036854775808.0;
        match small_integer(a.to_bits()) {
            Some(n) => {
                assert!(whole, "{}", a);
                assert_eq!(n, a as i64, "{}", a);
                assert_eq!(n as f64, if a == 0.0 { 0.0 } else { a });
            }
            None => assert!(!whole, "{}", a),
        }
    }
    assert_eq!(small_integer(7.0_f64.to_bits()), Some(7));
    assert_eq!(small_integer((-120.0_f64).to_bits()), Some(-120));
    assert_eq!(small_integer((-0.0_f64).to_bits()), Some(0));
    assert_eq!(small_integer(2.5_f64.to_bits()), None);
    assert_eq!(small_integer(9223372036854774784.0_f64.to_bits()), Some(9223372036854774784));
    assert_eq!(small_integer(9223372036854775808.0_f64.to_bits()), None);
    assert_eq!(small_integer(f64::NAN.to_bits()), None);
}

#[test]
fn whole_numbers_up_to_two_to_the_53_become_their_numbers() {
    let mut n: u64 = 0;
    while n <= 5000 {
        assert_eq!(from_whole(n), Some((n as f64).to_bits()), "{}", n);
        assert_eq!(small_integer(from_whole(n).unwrap()), Some(n as i64));
        n += 1;
    }
    for n in [
        65535_u64,
        65536,
        4294967295,
        4294967296,
        4503599627370495,
        4503599627370496,
        4503599627370497,
        9007199254740991,
        9007199254740992,
    ] {
        assert_eq!(from_whole(n), Some((n as f64).to_bits()), "{}", n);
    }
    let mut k = 0;
    while k <= 53 {
        assert_eq!(from_whole(1_u64 << k), Some(((1_u64 << k) as f64).to_bits()), "2^{}", k);
        k += 1;
    }
    assert_eq!(from_whole(9007199254740993), None);
    assert_eq!(from_whole(u64::MAX), None);
}

#[test]
fn numerals_of_digits_are_read() {
    use_whole_numeral();
}

fn use_whole_numeral() {
    assert_eq!(laminax_kpl::text::whole_numeral("0", 100), Some(0));
    assert_eq!(laminax_kpl::text::whole_numeral("42", 100), Some(42));
    assert_eq!(laminax_kpl::text::whole_numeral("100", 100), Some(100));
    assert_eq!(laminax_kpl::text::whole_numeral("101", 100), None);
    assert_eq!(laminax_kpl::text::whole_numeral("0000099", 100), Some(99));
    assert_eq!(laminax_kpl::text::whole_numeral("", 100), None);
    assert_eq!(laminax_kpl::text::whole_numeral("1.5", 100), None);
    assert_eq!(laminax_kpl::text::whole_numeral("-1", 100), None);
    assert_eq!(laminax_kpl::text::whole_numeral("12a", 100), None);
    assert_eq!(laminax_kpl::text::whole_numeral("٣", 100), None);
    assert_eq!(laminax_kpl::text::whole_numeral("99999999999999999999999999", EXACT), None);
    assert_eq!(laminax_kpl::text::whole_numeral("9007199254740992", EXACT), Some(EXACT));
}

fn whole_samples() -> Vec<f64> {
    let mut values = vec![0.0_f64, -0.0];
    for n in 1..=12 {
        values.push(n as f64);
        values.push(-(n as f64));
    }
    for n in [
        100.0,
        255.0,
        256.0,
        1000.0,
        65536.0,
        94906265.0,
        94906266.0,
        94906267.0,
        4294967296.0,
        4503599627370495.0,
        4503599627370496.0,
        4503599627370497.0,
        9007199254740990.0,
        9007199254740991.0,
        9007199254740992.0,
        9007199254740994.0,
        18014398509481984.0,
        1e18,
        9223372036854774784.0,
    ] {
        values.push(n);
        values.push(-n);
    }
    values
}

/// Checks `exact` against `float` on pairs of samples: what it finds is what
/// the numbers give, and it finds every result that `whole` says is a whole
/// number of a size up to two to the power 53.
fn check_exact(
    name: &str,
    exact: fn(u64, u64) -> Option<u64>,
    float: fn(f64, f64) -> f64,
    whole: fn(i128, i128) -> Option<i128>,
) {
    let mut values = whole_samples();
    values.extend([0.5, -1.5, 1e300, f64::INFINITY, f64::NEG_INFINITY, f64::NAN, 9223372036854775808.0]);
    let mut found = 0;
    for a in &values {
        for b in &values {
            let expected = float(*a, *b);
            let is_whole = |x: f64| x.fract() == 0.0 && x.abs() < 9223372036854775808.0;
            let wanted = if is_whole(*a) && is_whole(*b) {
                whole(*a as i128, *b as i128).filter(|n| n.abs() <= 9007199254740992)
            } else {
                None
            };
            match exact(a.to_bits(), b.to_bits()) {
                Some(bits) => {
                    found += 1;
                    assert_eq!(bits, expected.to_bits(), "{} {} {}: {}", a, name, b, f64::from_bits(bits));
                    assert_eq!(wanted, Some(expected as i128), "{} {} {}", a, name, b);
                }
                None => assert_eq!(wanted, None, "{} {} {} is {}", a, name, b, expected),
            }
        }
    }
    assert!(found > 500, "{}: {}", name, found);
}

#[test]
fn sums_of_whole_numbers_are_those_of_the_numbers() {
    check_exact("+", laminax_kpl::number::exact_add, |a, b| a + b, |x, y| Some(x + y));
}

#[test]
fn differences_of_whole_numbers_are_those_of_the_numbers() {
    check_exact("-", laminax_kpl::number::exact_subtract, |a, b| a - b, |x, y| Some(x - y));
}

#[test]
fn products_of_whole_numbers_are_those_of_the_numbers() {
    check_exact("*", laminax_kpl::number::exact_multiply, |a, b| a * b, |x, y| Some(x * y));
}

#[test]
fn quotients_of_whole_numbers_are_those_of_the_numbers() {
    check_exact("/", laminax_kpl::number::exact_divide, |a, b| a / b, |x, y| {
        if y != 0 && x % y == 0 {
            Some(x / y)
        } else {
            None
        }
    });
}

#[test]
fn remainders_of_whole_numbers_are_those_of_the_numbers() {
    check_exact("%", laminax_kpl::number::exact_modulo, |a, b| a % b, |x, y| {
        if y != 0 {
            Some(x % y)
        } else {
            None
        }
    });
}

#[test]
fn zero_results_have_the_sign_that_the_numbers_give_them() {
    use_zero_signs();
}

fn use_zero_signs() {
    let (p, n) = (0.0_f64.to_bits(), (-0.0_f64).to_bits());
    let three = 3.0_f64.to_bits();
    let minus_three = (-3.0_f64).to_bits();
    assert_eq!(laminax_kpl::number::exact_add(p, p), Some(p));
    assert_eq!(laminax_kpl::number::exact_add(n, n), Some(n));
    assert_eq!(laminax_kpl::number::exact_add(p, n), Some(p));
    assert_eq!(laminax_kpl::number::exact_add(three, minus_three), Some(p));
    assert_eq!(laminax_kpl::number::exact_subtract(three, three), Some(p));
    assert_eq!(laminax_kpl::number::exact_subtract(n, p), Some(n));
    assert_eq!(laminax_kpl::number::exact_subtract(n, n), Some(p));
    assert_eq!(laminax_kpl::number::exact_multiply(p, minus_three), Some(n));
    assert_eq!(laminax_kpl::number::exact_multiply(n, minus_three), Some(p));
    assert_eq!(laminax_kpl::number::exact_divide(p, minus_three), Some(n));
    assert_eq!(laminax_kpl::number::exact_divide(three, p), None);
    assert_eq!(laminax_kpl::number::exact_modulo(minus_three, three), Some(n));
    assert_eq!(laminax_kpl::number::exact_modulo(three, minus_three), Some(p));
    assert_eq!(laminax_kpl::number::exact_modulo(three, p), None);
    assert_eq!(laminax_kpl::number::exact_divide(7.0_f64.to_bits(), 2.0_f64.to_bits()), None);
    assert_eq!(
        laminax_kpl::number::exact_multiply(94906267.0_f64.to_bits(), 94906267.0_f64.to_bits()),
        None
    );
}
