use proctime::metric::parse_custom_metric;
use proctime::CustomMetric;

fn parse(bytes: &[u8]) -> CustomMetric {
    parse_custom_metric(&bytes.to_vec())
}

fn zero() -> CustomMetric {
    CustomMetric { negative: false, mantissa: 0, scale: 0 }
}

#[test]
fn report_numeric_with_whitespace() {
    // A child printing "42.5" surrounded by whitespace reports 42.5.
    let m = parse(b"  42.5\n");
    assert_eq!(m, CustomMetric { negative: false, mantissa: 425, scale: 1 });
}

#[test]
fn report_non_numeric_is_zero() {
    assert_eq!(parse(b"not-a-number"), zero());
}

#[test]
fn empty_output_is_zero() {
    assert_eq!(parse(b""), zero());
    assert_eq!(parse(b"  \t\r\n"), zero());
    assert_eq!(parse(b"\x0b\x0c"), zero());
}

#[test]
fn vertical_tab_and_form_feed_are_trimmed() {
    let m = parse(b"\x0b 42.5 \x0c");
    assert_eq!(m, CustomMetric { negative: false, mantissa: 425, scale: 1 });
}

#[test]
fn bare_dot_forms() {
    // The float grammar admits a trailing or leading dot.
    assert_eq!(parse(b"7."), CustomMetric { negative: false, mantissa: 7, scale: 0 });
    assert_eq!(parse(b".5"), CustomMetric { negative: false, mantissa: 5, scale: 1 });
    assert_eq!(parse(b"-.5"), CustomMetric { negative: true, mantissa: 5, scale: 1 });
    assert_eq!(parse(b"."), zero());
}

#[test]
fn exponent_forms() {
    assert_eq!(parse(b"1e3"), CustomMetric { negative: false, mantissa: 1000, scale: 0 });
    assert_eq!(parse(b"1E2"), CustomMetric { negative: false, mantissa: 100, scale: 0 });
    assert_eq!(parse(b"7e+2"), CustomMetric { negative: false, mantissa: 700, scale: 0 });
    // A fraction shorter than the exponent folds fully into the mantissa.
    assert_eq!(parse(b"1.5e2"), CustomMetric { negative: false, mantissa: 150, scale: 0 });
    // A fraction longer than the exponent keeps the leftover scale.
    assert_eq!(parse(b"1.25e1"), CustomMetric { negative: false, mantissa: 125, scale: 1 });
    assert_eq!(parse(b"2e-3"), CustomMetric { negative: false, mantissa: 2, scale: 3 });
    assert_eq!(parse(b"-4.5e-1"), CustomMetric { negative: true, mantissa: 45, scale: 2 });
    assert_eq!(parse(b"1e-0"), CustomMetric { negative: false, mantissa: 1, scale: 0 });
}

#[test]
fn malformed_exponents_are_zero() {
    assert_eq!(parse(b"5e"), zero());
    assert_eq!(parse(b"e3"), zero());
    assert_eq!(parse(b"1e+"), zero());
    assert_eq!(parse(b"1e2.5"), zero());
    assert_eq!(parse(b"1e2e3"), zero());
}

#[test]
fn unrepresentable_exponents_are_zero() {
    // Scaling the mantissa past u64 cannot be represented.
    assert_eq!(parse(b"9e30"), zero());
    assert_eq!(parse(b"1e99999999999999999999999"), zero());
    // A zero mantissa stays zero whatever the exponent.
    assert_eq!(
        parse(b"0e99999999999999999999999"),
        CustomMetric { negative: false, mantissa: 0, scale: 0 }
    );
}

#[test]
fn plain_integer() {
    assert_eq!(parse(b"7"), CustomMetric { negative: false, mantissa: 7, scale: 0 });
    assert_eq!(parse(b"0"), CustomMetric { negative: false, mantissa: 0, scale: 0 });
}

#[test]
fn signed_numerals() {
    assert_eq!(parse(b"-3.25"), CustomMetric { negative: true, mantissa: 325, scale: 2 });
    assert_eq!(parse(b"+3.25"), CustomMetric { negative: false, mantissa: 325, scale: 2 });
    assert_eq!(parse(b" -12\n"), CustomMetric { negative: true, mantissa: 12, scale: 0 });
}

#[test]
fn leading_zeros_keep_value() {
    assert_eq!(parse(b"0007.250"), CustomMetric { negative: false, mantissa: 7250, scale: 3 });
}

#[test]
fn malformed_numerals_are_zero() {
    assert_eq!(parse(b"1.2.3"), zero());
    assert_eq!(parse(b"12 34"), zero());
    assert_eq!(parse(b"+"), zero());
    assert_eq!(parse(b"-"), zero());
    assert_eq!(parse(b"4a"), zero());
    assert_eq!(parse(b"inf"), zero());
    assert_eq!(parse(b"nan"), zero());
}

#[test]
fn mantissa_beyond_u64_is_zero() {
    // Twenty-one nines cannot be held in a u64 mantissa.
    assert_eq!(parse(b"999999999999999999999"), zero());
    // The largest u64 still parses exactly.
    assert_eq!(
        parse(b"18446744073709551615"),
        CustomMetric { negative: false, mantissa: u64::MAX, scale: 0 }
    );
}
