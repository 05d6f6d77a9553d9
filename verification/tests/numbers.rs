use fold_constants::number::Number;
use fold_constants::number_value::NumberValue;
use fold_constants::numeric_text;
use fold_constants::numeric_text::NumericText;
use fold_constants::text;

fn number(value: f64) -> Number {
    Number { bits: value.to_bits() }
}

fn samples() -> Vec<f64> {
    vec![
        0.0,
        -0.0,
        1.0,
        -1.0,
        0.1,
        0.2,
        0.3,
        -0.3,
        1.5,
        2.5,
        -2.5,
        1e-320,
        -1e-320,
        f64::MIN_POSITIVE,
        5e-324,
        4503599627370496.0,
        4503599627370495.5,
        9007199254740991.0,
        9007199254740992.0,
        9007199254740993.0,
        -9007199254740994.0,
        4294967296.0,
        2147483648.0,
        -2147483649.0,
        1e16,
        1e17,
        1e300,
        -1e300,
        f64::MAX,
        f64::MIN,
        1.7976931348623155e308,
        f64::INFINITY,
        f64::NEG_INFINITY,
        f64::NAN,
        f64::EPSILON,
        1.0 + f64::EPSILON,
        123456789.123456789,
        1e22,
        1e23,
        3.0e-5,
    ]
}

#[test]
fn order_and_equality_are_those_of_doubles() {
    for a in samples() {
        for b in samples() {
            assert_eq!(number(a).is_less(number(b)), a < b, "{} < {}", a, b);
            assert_eq!(number(a).is_same(number(b)), a == b, "{} == {}", a, b);
        }
    }
}

#[test]
fn sums_are_those_of_doubles() {
    for a in samples() {
        for b in samples() {
            let expected = a + b;
            let sum = number(a).plus(number(b));
            if expected.is_nan() {
                assert!(sum.is_nan(), "{} + {}", a, b);
            } else {
                assert_eq!(sum.bits, expected.to_bits(), "{} + {}", a, b);
            }
        }
    }
}

#[test]
fn sum_is_commutative() {
    for a in samples() {
        for b in samples() {
            assert_eq!(number(a).plus(number(b)), number(b).plus(number(a)));
        }
    }
}

#[test]
fn sums_round_to_even() {
    let half = 9007199254740992.0;
    assert_eq!(number(half).plus(number(1.0)), number(9007199254740992.0));
    assert_eq!(number(half + 2.0).plus(number(1.0)), number(9007199254740996.0));
    assert_eq!(number(0.1).plus(number(0.2)), number(0.30000000000000004));
    assert_eq!(number(f64::MAX).plus(number(f64::MAX)), number(f64::INFINITY));
}

#[test]
fn integers_are_recognised() {
    for a in samples() {
        assert_eq!(number(a).is_integral(), a.fract() == 0.0, "{}", a);
        assert_eq!(number(a).is_at_least_2_53(), a.abs() >= 9007199254740992.0, "{}", a);
        assert_eq!(number(a).is_sign_positive(), a.is_sign_positive(), "{}", a);
        assert_eq!(number(a).is_nan(), a.is_nan(), "{}", a);
    }
}

#[test]
fn integer_parts_are_those_of_doubles() {
    for a in samples() {
        if a.is_nan() || a.abs() < 9007199254740992.0 {
            assert_eq!(number(a).to_i64(), a as i64, "{}", a);
        }
    }
}

#[test]
fn int32_is_reduced_towards_zero() {
    assert_eq!(number(2147483648.0).to_int32(), -2147483648);
    assert_eq!(number(4294967296.0).to_int32(), 0);
    assert_eq!(number(4294967297.0).to_int32(), 1);
    assert_eq!(number(-1.0).to_int32(), -1);
    assert_eq!(number(-4294967297.0).to_int32(), -1);
    assert_eq!(number(1e21).to_int32(), -559939584);
    assert_eq!(number(0.5).to_int32(), 0);
    assert_eq!(number(f64::NAN).to_int32(), 0);
    assert_eq!(number(f64::INFINITY).to_int32(), 0);
}

#[test]
fn int32_cuts_off_below_the_least() {
    assert_eq!(number(-2147483648.0).to_int32(), -2147483648);
    assert_eq!(number(-3000000000.0).to_int32(), -2147483648);
    assert_eq!(number(-3000000000.0).to_low_int32(), 1294967296);
}

#[test]
fn low_int32_keeps_the_lowest_bits() {
    for a in samples() {
        let reduced = if a.is_finite() { a.trunc() % 4294967296.0 } else { 0.0 };
        assert_eq!(number(a).to_low_int32(), reduced as i64 as i32, "{}", a);
    }
}

#[test]
fn small_integers_are_exact() {
    for n in [0i64, 1, -1, 2, 10, 255, 65536, 4294967295, 9007199254740991, -9007199254740991] {
        assert_eq!(Number::from_i64(n), number(n as f64));
        assert_eq!(Number::from_i64(n).to_i64(), n);
    }
}

#[test]
fn negation_flips_the_sign() {
    assert_eq!(number(1.5).negate(), number(-1.5));
    assert_eq!(number(0.0).negate(), number(-0.0));
    assert_eq!(number(-1.5).negate(), number(1.5));
}

#[test]
fn number_values() {
    let one = NumberValue::Number(number(1.0));
    assert_eq!(NumberValue::PositiveInfinity.plus(one), NumberValue::PositiveInfinity);
    assert_eq!(one.plus(NumberValue::NegativeInfinity), NumberValue::NegativeInfinity);
    assert_eq!(
        NumberValue::PositiveInfinity.plus(NumberValue::NegativeInfinity),
        NumberValue::NaN
    );
    assert_eq!(
        NumberValue::PositiveInfinity.plus(NumberValue::PositiveInfinity),
        NumberValue::PositiveInfinity
    );
    assert_eq!(one.plus(one), NumberValue::Number(number(2.0)));
    assert_eq!(NumberValue::NaN.plus(one), NumberValue::NaN);
    assert_eq!(NumberValue::PositiveInfinity.negate(), NumberValue::NegativeInfinity);
    assert_eq!(NumberValue::NegativeInfinity.negate(), NumberValue::PositiveInfinity);
    assert_eq!(one.negate(), NumberValue::Number(number(-1.0)));
    assert_eq!(NumberValue::PositiveInfinity.to_number(), Some(number(f64::INFINITY)));
    assert_eq!(NumberValue::NegativeInfinity.to_number(), Some(number(f64::NEG_INFINITY)));
    assert_eq!(NumberValue::NaN.to_number(), None);
    assert!(!NumberValue::NaN.is_truthy());
    assert!(NumberValue::NegativeInfinity.is_truthy());
    assert!(!NumberValue::Number(number(-0.0)).is_truthy());
    assert!(one.is_same(one));
    assert!(!one.is_same(NumberValue::PositiveInfinity));
    assert!(!NumberValue::NaN.is_same(NumberValue::NaN));
    let literal = NumberValue::Number(number(f64::INFINITY));
    assert!(literal.is_same(NumberValue::PositiveInfinity));
    assert!(!literal.is_same(NumberValue::NegativeInfinity));
    assert_eq!(literal.plus(NumberValue::NegativeInfinity), NumberValue::NaN);
    assert_eq!(literal.plus(one), NumberValue::PositiveInfinity);
    assert_eq!(NumberValue::from_number(number(f64::NEG_INFINITY)), NumberValue::NegativeInfinity);
    assert_eq!(NumberValue::from_number(number(f64::NAN)), NumberValue::NaN);
    assert_eq!(NumberValue::from_number(number(1.0)), one);
    assert!(NumberValue::NaN.is_nan());
}

#[test]
fn decimal_texts() {
    for n in [0i64, 7, 10, 4294967295, -1, -2147483648, i64::MAX] {
        assert_eq!(text::decimal_text_of(n), n.to_string());
    }
}

#[test]
fn text_order_is_that_of_code_units() {
    let texts = [
        "",
        "a",
        "ab",
        "b",
        "B",
        "aa",
        "\u{e9}",
        "\u{d7ff}",
        "\u{e000}",
        "\u{ff5e}",
        "\u{ffff}",
        "\u{10000}",
        "\u{1f600}",
        "\u{1f601}",
        "\u{10ffff}",
        "a\u{1f600}b",
        "a\u{1f600}",
        "a\u{ff5e}",
    ];
    for a in texts {
        for b in texts {
            let (x, y): (Vec<u16>, Vec<u16>) =
                (a.encode_utf16().collect(), b.encode_utf16().collect());
            assert_eq!(text::is_before(a, b), x < y, "{:?} < {:?}", a, b);
            assert_eq!(text::is_text(a, b), a == b);
        }
    }
    assert!(text::contains("a\u{b}c", '\u{b}'));
    assert!(!text::contains("abc", '\u{b}'));
}

fn decimal(text: &str) -> NumericText {
    NumericText::Decimal(text.chars().collect())
}

#[test]
fn numeric_texts() {
    for text in ["0", "17", "-1", "+1.5", "5.", ".5", "1e3", "1.E-3", "-0", "1e+5", "007"] {
        assert_eq!(numeric_text::read(text), decimal(text));
    }
    assert_eq!(numeric_text::read(""), decimal("0"));
    assert_eq!(numeric_text::read(" \n"), decimal("0"));
    assert_eq!(numeric_text::read("\u{feff}12 "), decimal("12"));
    assert_eq!(numeric_text::read("0x1F"), decimal("31"));
    assert_eq!(numeric_text::read("0b101"), decimal("5"));
    assert_eq!(numeric_text::read("0O17"), decimal("15"));
    assert_eq!(
        numeric_text::read("0xffffffffffffffffffff"),
        decimal("1208925819614629174706175")
    );
    assert_eq!(numeric_text::read("Infinity"), NumericText::PositiveInfinity);
    assert_eq!(numeric_text::read(" +Infinity"), NumericText::PositiveInfinity);
    assert_eq!(numeric_text::read("-Infinity"), NumericText::NegativeInfinity);
    for text in [
        "abc", ".", "+", "-", "e5", "1e", "1e+", "1.2.3", "1_000", "0x", "0xg", "-0x10", "inf",
        "nan", "infinity", "1 2", "++1", "1n", "\u{e9}",
    ] {
        assert_eq!(numeric_text::read(text), NumericText::NaN, "{:?}", text);
    }
    assert_eq!(numeric_text::read("\u{b}1"), NumericText::Open);
}
