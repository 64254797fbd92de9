use rlox::number::{ArithmeticError, Number, NumeralError};

fn chars(s: &str) -> Vec<char> {
    s.chars().collect()
}

fn parsed_number(s: &str) -> Result<Number, NumeralError> {
    let v = chars(s);
    Number::parse(&v, 0, v.len())
}

fn text_of_number(n: Number) -> String {
    let mut out: Vec<char> = Vec::new();
    n.push_text(&mut out);
    out.into_iter().collect()
}

#[test]
fn whole_numbers_are_scaled_by_a_million() {
    assert_eq!(Number::from_whole(3), Ok(Number { units: 3_000_000 }));
    assert_eq!(Number::from_whole(-2), Ok(Number { units: -2_000_000 }));
    assert_eq!(Number::from_units(5).units, 5);
}

#[test]
fn whole_number_out_of_range_overflows() {
    assert_eq!(Number::from_whole(9_223_372_036_855), Err(ArithmeticError::Overflow));
    assert_eq!(Number::from_whole(9_223_372_036_854), Ok(Number { units: 9_223_372_036_854_000_000 }));
}

#[test]
fn sums_and_differences_are_exact() {
    let a = Number { units: 1_500_000 };
    let b = Number { units: 2_250_000 };
    assert_eq!(a.plus(b), Ok(Number { units: 3_750_000 }));
    assert_eq!(a.minus(b), Ok(Number { units: -750_000 }));
    assert_eq!(a.negated(), Ok(Number { units: -1_500_000 }));
}

#[test]
fn sums_out_of_range_overflow() {
    let max = Number { units: i64::MAX };
    let min = Number { units: i64::MIN };
    let one = Number { units: 1 };
    assert_eq!(max.plus(one), Err(ArithmeticError::Overflow));
    assert_eq!(min.minus(one), Err(ArithmeticError::Overflow));
    assert_eq!(min.negated(), Err(ArithmeticError::Overflow));
    assert_eq!(max.negated(), Ok(Number { units: -i64::MAX }));
}

#[test]
fn products_round_toward_zero() {
    let third = Number { units: 333_333 };
    let three = Number { units: 3_000_000 };
    assert_eq!(third.times(three), Ok(Number { units: 999_999 }));
    let tiny = Number { units: 1 };
    assert_eq!(tiny.times(tiny), Ok(Number { units: 0 }));
    let a = Number { units: 1_500_000 };
    let b = Number { units: -2_500_001 };
    // 1.5 * -2.500001 = -3.7500015, which rounds toward zero to -3.750001
    assert_eq!(a.times(b), Ok(Number { units: -3_750_001 }));
    assert_eq!(b.times(a), Ok(Number { units: -3_750_001 }));
    assert_eq!(b.times(b), Ok(Number { units: 6_250_005 }));
}

#[test]
fn product_out_of_range_overflows() {
    let big = Number { units: 4_000_000_000_000_000_000 };
    assert_eq!(big.times(big), Err(ArithmeticError::Overflow));
    let min = Number { units: i64::MIN };
    let minus_one = Number { units: -1_000_000 };
    assert_eq!(min.times(minus_one), Err(ArithmeticError::Overflow));
    let one = Number { units: 1_000_000 };
    assert_eq!(min.times(one), Ok(min));
}

#[test]
fn quotients_round_toward_zero() {
    let one = Number { units: 1_000_000 };
    let three = Number { units: 3_000_000 };
    assert_eq!(one.divided_by(three), Ok(Number { units: 333_333 }));
    let minus_one = Number { units: -1_000_000 };
    assert_eq!(minus_one.divided_by(three), Ok(Number { units: -333_333 }));
    let seven = Number { units: 7_000_000 };
    let two = Number { units: 2_000_000 };
    assert_eq!(seven.divided_by(two), Ok(Number { units: 3_500_000 }));
    let minus_two = Number { units: -2_000_000 };
    assert_eq!(minus_one.divided_by(minus_two), Ok(Number { units: 500_000 }));
}

#[test]
fn division_by_zero_is_an_error() {
    let one = Number { units: 1_000_000 };
    let zero = Number { units: 0 };
    assert_eq!(one.divided_by(zero), Err(ArithmeticError::DivisionByZero));
    assert_eq!(zero.divided_by(zero), Err(ArithmeticError::DivisionByZero));
}

#[test]
fn quotient_out_of_range_overflows() {
    let max = Number { units: i64::MAX };
    let tiny = Number { units: 1 };
    assert_eq!(max.divided_by(tiny), Err(ArithmeticError::Overflow));
}

#[test]
fn less_than_compares_units() {
    let a = Number { units: -1 };
    let b = Number { units: 0 };
    assert!(a.less_than(b));
    assert!(!b.less_than(a));
    assert!(!a.less_than(a));
}

#[test]
fn numerals_denote_millionths() {
    assert_eq!(parsed_number("0"), Ok(Number { units: 0 }));
    assert_eq!(parsed_number("12"), Ok(Number { units: 12_000_000 }));
    assert_eq!(parsed_number("12.5"), Ok(Number { units: 12_500_000 }));
    assert_eq!(parsed_number("0.000001"), Ok(Number { units: 1 }));
    assert_eq!(parsed_number("007.050"), Ok(Number { units: 7_050_000 }));
    assert_eq!(parsed_number("1."), Ok(Number { units: 1_000_000 }));
}

#[test]
fn numerals_drop_digits_beyond_the_sixth() {
    assert_eq!(parsed_number("3.1415926535"), Ok(Number { units: 3_141_592 }));
    assert_eq!(parsed_number("0.0000009"), Ok(Number { units: 0 }));
}

#[test]
fn numeral_in_the_middle_of_a_buffer() {
    let v = chars("ab 42.25 cd");
    assert_eq!(Number::parse(&v, 3, 8), Ok(Number { units: 42_250_000 }));
    assert_eq!(Number::parse(&v, 3, 5), Ok(Number { units: 42_000_000 }));
}

#[test]
fn malformed_numerals_are_rejected() {
    assert_eq!(parsed_number(""), Err(NumeralError::Malformed));
    assert_eq!(parsed_number(".5"), Err(NumeralError::Malformed));
    assert_eq!(parsed_number("12.34.56"), Err(NumeralError::Malformed));
    assert_eq!(parsed_number("1..2"), Err(NumeralError::Malformed));
    assert_eq!(parsed_number("1a"), Err(NumeralError::Malformed));
    assert_eq!(parsed_number("1.2x"), Err(NumeralError::Malformed));
    assert_eq!(parsed_number("-1"), Err(NumeralError::Malformed));
}

#[test]
fn numerals_out_of_range_are_rejected() {
    assert_eq!(
        parsed_number("9223372036854.775807"),
        Ok(Number { units: 9_223_372_036_854_775_807 })
    );
    assert_eq!(parsed_number("9223372036854.775808"), Err(NumeralError::OutOfRange));
    assert_eq!(parsed_number("9223372036855"), Err(NumeralError::OutOfRange));
    assert_eq!(
        parsed_number("100000000000000000000000000000000000000000"),
        Err(NumeralError::OutOfRange)
    );
    // a malformed numeral is malformed whatever its size
    assert_eq!(parsed_number("99999999999999999999.1.2"), Err(NumeralError::Malformed));
}

#[test]
fn number_text_has_no_trailing_zeros() {
    assert_eq!(text_of_number(Number { units: 0 }), "0");
    assert_eq!(text_of_number(Number { units: 3_000_000 }), "3");
    assert_eq!(text_of_number(Number { units: 1_500_000 }), "1.5");
    assert_eq!(text_of_number(Number { units: -250_000 }), "-0.25");
    assert_eq!(text_of_number(Number { units: 1 }), "0.000001");
    assert_eq!(text_of_number(Number { units: 10_000_010 }), "10.00001");
    assert_eq!(text_of_number(Number { units: 123_456_789 }), "123.456789");
    assert_eq!(text_of_number(Number { units: -1_000_000 }), "-1");
}

#[test]
fn number_text_at_the_ends_of_the_range() {
    assert_eq!(text_of_number(Number { units: i64::MAX }), "9223372036854.775807");
    assert_eq!(text_of_number(Number { units: i64::MIN }), "-9223372036854.775808");
}

#[test]
fn number_text_is_appended() {
    let mut out: Vec<char> = vec!['x', '='];
    Number { units: 2_500_000 }.push_text(&mut out);
    let s: String = out.into_iter().collect();
    assert_eq!(s, "x=2.5");
}
