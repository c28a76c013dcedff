use exactulator::engine::{apply_operator, parse_decimal, Operator};
use exactulator::format::{FormattedRational, DEFAULT_MAX_DIGITS};
use exactulator::rational::Rational;

fn ratio(numerator: i64, denominator: i64) -> Rational {
    Rational::new(numerator, denominator)
}

fn assert_formats(value: &Rational, text: &str, is_approximate: bool) {
    let formatted = FormattedRational::new(value);

    assert_eq!(
        formatted,
        FormattedRational {
            is_approximate,
            text: text.to_owned(),
        }
    );
}

#[test]
fn zero() {
    assert_formats(&ratio(0, 1), "0", false);
}

#[test]
fn positive_integer() {
    assert_formats(&ratio(42, 1), "42", false);
}

#[test]
fn negative_integer() {
    assert_formats(&ratio(-7, 1), "\u{2212}7", false);
}

#[test]
fn large_integer_is_never_truncated() {
    let value = parse_decimal("123456789012345678901234567890");

    assert_formats(&value, "123456789012345678901234567890", false);
}

#[test]
fn terminating_decimal_within_max_digits() {
    assert_formats(&ratio(1, 8), "0.125", false);
    assert_formats(&ratio(-3, 4), "\u{2212}0.75", false);
    assert_formats(&ratio(7, 2), "3.5", false);
}

#[test]
fn terminating_decimal_exactly_at_max_digits() {
    // 1/2^12 has exactly 12 fractional digits.
    assert_formats(&ratio(1, 4096), "0.000244140625", false);
}

#[test]
fn terminating_decimal_longer_than_max_digits_is_rounded() {
    // 1/2^13 is 0.0001220703125: 13 fractional digits, one past the limit,
    // with the discarded tail exactly half a unit in the last place.
    assert_formats(&ratio(1, 8192), "0.000122070313", true);
}

#[test]
fn repeating_third() {
    assert_formats(&ratio(1, 3), "0.(3)", false);
    assert_formats(&ratio(-1, 3), "\u{2212}0.(3)", false);
}

#[test]
fn repeating_seventh() {
    assert_formats(&ratio(1, 7), "0.(142857)", false);
}

#[test]
fn repetend_with_non_repeating_prefix() {
    assert_formats(&ratio(5, 12), "0.41(6)", false);
    assert_formats(&ratio(1, 6), "0.1(6)", false);
}

#[test]
fn repeating_with_integer_part() {
    assert_formats(&ratio(7, 3), "2.(3)", false);
}

#[test]
fn period_exactly_equal_to_max_digits_stays_exact() {
    // 1/9901 repeats with a period of exactly 12 digits.
    assert_formats(&ratio(1, 9901), "0.(000100999899)", false);
}

#[test]
fn period_one_past_max_digits_is_rounded() {
    // 1/53 repeats with a period of 13 digits.
    assert_formats(&ratio(1, 53), "0.018867924528", true);

    // 1/17 is 0.0588235294117647... with a period of 16, so the last place
    // rounds up rather than truncating to ...411.
    assert_formats(&ratio(1, 17), "0.058823529412", true);
}

#[test]
fn rounding_carries_into_the_integer_part() {
    assert_formats(&ratio(9_999_999_999_999, 10_000_000_000_000), "1", true);
}

#[test]
fn trailing_zeros_from_rounding_are_stripped() {
    assert_formats(&ratio(4_999_999_999_999, 10_000_000_000_000), "0.5", true);
}

#[test]
fn negative_values_round_away_from_zero() {
    assert_formats(&ratio(-1, 17), "\u{2212}0.058823529412", true);
}

#[test]
fn large_denominator_returns_promptly() {
    let value = apply_operator(
        Rational::from_integer(1),
        Operator::Divide,
        parse_decimal("99999999999999999989"),
    )
    .unwrap();

    // Rounds to zero at this digit limit, but is still not exact.
    assert_formats(&value, "0", true);
}

#[test]
fn tiny_negative_keeps_its_sign_when_it_rounds_to_zero() {
    // The sign is retained deliberately: with the approximation marker, a
    // rendered "−0" says the value is a small negative rather than zero.
    let value = apply_operator(
        Rational::from_integer(-1),
        Operator::Divide,
        parse_decimal("99999999999999999989"),
    )
    .unwrap();

    assert_formats(&value, "\u{2212}0", true);
}

#[test]
fn max_digits_is_configurable() {
    assert_eq!(
        FormattedRational::with_max_digits(&ratio(1, 3), 3).text,
        "0.(3)"
    );
    assert_eq!(
        FormattedRational::with_max_digits(&ratio(1, 7), 4),
        FormattedRational {
            is_approximate: true,
            text: "0.1429".to_owned(),
        }
    );
    assert_eq!(
        FormattedRational::with_max_digits(&ratio(1, 53), 4),
        FormattedRational {
            is_approximate: true,
            text: "0.0189".to_owned(),
        }
    );
    assert_eq!(
        FormattedRational::with_max_digits(&ratio(1, 53), DEFAULT_MAX_DIGITS + 1),
        FormattedRational {
            is_approximate: false,
            text: "0.(0188679245283)".to_owned(),
        }
    );
}

#[test]
fn zero_max_digits_rounds_to_a_whole_number() {
    assert_eq!(
        FormattedRational::with_max_digits(&ratio(7, 2), 0),
        FormattedRational {
            is_approximate: true,
            text: "4".to_owned(),
        }
    );
    assert_eq!(
        FormattedRational::with_max_digits(&ratio(4, 2), 0),
        FormattedRational {
            is_approximate: false,
            text: "2".to_owned(),
        }
    );
}

#[test]
fn renderings_use_the_unicode_minus_sign_only() {
    for value in [ratio(-1, 3), ratio(-1, 17), ratio(-7, 1), ratio(-5, 12)] {
        let text = FormattedRational::new(&value).text;
        assert!(text.starts_with('\u{2212}'));
        assert!(!text.contains('-'));
    }
}
