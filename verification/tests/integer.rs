use glucose::scalar::{Extrema, Scalar, Signed, Token};

fn chars(text: &str) -> Vec<char> {
    text.chars().collect()
}

fn parse(text: &str) -> Option<i64> {
    <i64 as Token>::parse(&chars(text))
}

#[test]
fn the_identities_are_zero_and_one() {
    assert_eq!(<i64 as Scalar>::zero(), 0);
    assert_eq!(<i64 as Scalar>::one(), 1);
}

#[test]
fn the_operations_wrap_at_the_ends_of_the_range() {
    assert_eq!(Scalar::add(2i64, 3), 5);
    assert_eq!(Scalar::add(i64::MAX, 1), i64::MIN);
    assert_eq!(Scalar::add(i64::MIN, -1), i64::MAX);
    assert_eq!(Scalar::sub(2i64, 3), -1);
    assert_eq!(Scalar::sub(i64::MIN, 1), i64::MAX);
    assert_eq!(Scalar::sub(i64::MAX, -1), i64::MIN);
    assert_eq!(Scalar::mul(-4i64, 6), -24);
    assert_eq!(Scalar::mul(i64::MAX, 2), -2);
    assert_eq!(Scalar::mul(i64::MIN, -1), i64::MIN);
    assert_eq!(Scalar::mul(1i64 << 32, 1i64 << 32), 0);
}

#[test]
fn division_rounds_towards_zero() {
    assert_eq!(Scalar::div(7i64, 2), 3);
    assert_eq!(Scalar::div(-7i64, 2), -3);
    assert_eq!(Scalar::div(7i64, -2), -3);
    assert_eq!(Scalar::div(-7i64, -2), 3);
    assert_eq!(Scalar::div(0i64, -5), 0);
    assert_eq!(Scalar::div(i64::MIN, -1), i64::MIN);
    assert_eq!(Scalar::div(i64::MIN, 1), i64::MIN);
    assert!(Scalar::can_divide(5i64));
    assert!(Scalar::can_divide(-1i64));
    assert!(!Scalar::can_divide(0i64));
}

#[test]
fn the_extrema_are_the_larger_and_the_smaller() {
    assert_eq!(Extrema::maximum(3i64, -4), 3);
    assert_eq!(Extrema::maximum(-4i64, 3), 3);
    assert_eq!(Extrema::minimum(3i64, -4), -4);
    assert_eq!(Extrema::minimum(-4i64, 3), -4);
    assert_eq!(Extrema::maximum(5i64, 5), 5);
    assert_eq!(Extrema::minimum(5i64, 5), 5);
}

#[test]
fn the_absolute_value_wraps_at_the_lower_end() {
    assert_eq!(Signed::abs(-5i64), 5);
    assert_eq!(Signed::abs(5i64), 5);
    assert_eq!(Signed::abs(0i64), 0);
    assert_eq!(Signed::abs(i64::MIN), i64::MIN);
    assert_eq!(Signed::abs(i64::MIN + 1), i64::MAX);
}

#[test]
fn numbers_are_read_from_their_digits() {
    assert_eq!(parse("0"), Some(0));
    assert_eq!(parse("4"), Some(4));
    assert_eq!(parse("-1"), Some(-1));
    assert_eq!(parse("+17"), Some(17));
    assert_eq!(parse("007"), Some(7));
    assert_eq!(parse("-0"), Some(0));
    assert_eq!(parse("9223372036854775807"), Some(i64::MAX));
    assert_eq!(parse("-9223372036854775808"), Some(i64::MIN));
    assert_eq!(parse("000000000000000000000000000000042"), Some(42));
}

#[test]
fn what_is_no_number_is_refused() {
    assert_eq!(parse(""), None);
    assert_eq!(parse("-"), None);
    assert_eq!(parse("+"), None);
    assert_eq!(parse("2.5"), None);
    assert_eq!(parse("1 "), None);
    assert_eq!(parse("--1"), None);
    assert_eq!(parse("1-"), None);
    assert_eq!(parse("x"), None);
    assert_eq!(parse("١٢"), None);
    assert_eq!(parse("9223372036854775808"), None);
    assert_eq!(parse("-9223372036854775809"), None);
    assert_eq!(parse("99999999999999999999999"), None);
    assert_eq!(parse("9223372036854775808x"), None);
}

#[test]
fn numbers_are_written_in_decimal() {
    assert_eq!(Token::render(&0i64), "0");
    assert_eq!(Token::render(&7i64), "7");
    assert_eq!(Token::render(&-7i64), "-7");
    assert_eq!(Token::render(&10i64), "10");
    assert_eq!(Token::render(&1234567890i64), "1234567890");
    assert_eq!(Token::render(&i64::MAX), "9223372036854775807");
    assert_eq!(Token::render(&i64::MIN), "-9223372036854775808");
}

#[test]
fn what_is_written_is_read_back() {
    for n in [0i64, 1, -1, 9, 10, -10, 99, 100, 4096, -65535, i64::MAX, i64::MIN] {
        assert_eq!(parse(&Token::render(&n)), Some(n));
    }
}
