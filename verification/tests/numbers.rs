use rusp::arith::{num_add, num_div, num_mul, num_neg, num_sub};
use rusp::numeral::{parse_number, write_number};

fn text_of(n: i64) -> String {
    let mut out = String::new();
    write_number(&mut out, n);
    out
}

#[test]
fn sums_differences_and_products() {
    assert_eq!(num_add(2, 3), 5);
    assert_eq!(num_sub(2, 3), -1);
    assert_eq!(num_mul(-4, 6), -24);
    assert_eq!(num_neg(9), -9);
    assert_eq!(num_neg(0), 0);
}

#[test]
fn results_that_do_not_fit_wrap_round() {
    assert_eq!(num_add(i64::MAX, 1), i64::MIN);
    assert_eq!(num_add(i64::MIN, -1), i64::MAX);
    assert_eq!(num_sub(i64::MIN, 1), i64::MAX);
    assert_eq!(num_sub(0, i64::MIN), i64::MIN);
    assert_eq!(num_mul(i64::MAX, i64::MAX), 1);
    assert_eq!(num_mul(1 << 62, 4), 0);
    assert_eq!(num_mul(3037000500, 3037000500), -9223372036709301616);
    assert_eq!(num_neg(i64::MIN), i64::MIN);
}

#[test]
fn quotients_round_toward_zero() {
    assert_eq!(num_div(9, 2), Some(4));
    assert_eq!(num_div(-9, 2), Some(-4));
    assert_eq!(num_div(9, -2), Some(-4));
    assert_eq!(num_div(-9, -2), Some(4));
    assert_eq!(num_div(1, 2), Some(0));
    assert_eq!(num_div(-1, 2), Some(0));
    assert_eq!(num_div(i64::MIN, 1), Some(i64::MIN));
    assert_eq!(num_div(i64::MIN, -1), Some(i64::MIN));
    assert_eq!(num_div(i64::MAX, -1), Some(-i64::MAX));
}

#[test]
fn a_quotient_by_zero_is_none() {
    assert_eq!(num_div(1, 0), None);
    assert_eq!(num_div(0, 0), None);
    assert_eq!(num_div(i64::MIN, 0), None);
}

#[test]
fn literals_are_read() {
    assert_eq!(parse_number("0"), Some(0));
    assert_eq!(parse_number("-0"), Some(0));
    assert_eq!(parse_number("+0"), Some(0));
    assert_eq!(parse_number("12345"), Some(12345));
    assert_eq!(parse_number("-12345"), Some(-12345));
    assert_eq!(parse_number("+12345"), Some(12345));
    assert_eq!(parse_number("0000000000000000000000012"), Some(12));
    assert_eq!(parse_number("9223372036854775807"), Some(i64::MAX));
    assert_eq!(parse_number("-9223372036854775808"), Some(i64::MIN));
    assert_eq!(parse_number("-9223372036854775807"), Some(i64::MIN + 1));
}

#[test]
fn literals_out_of_range_are_not_read() {
    assert_eq!(parse_number("9223372036854775808"), None);
    assert_eq!(parse_number("+9223372036854775808"), None);
    assert_eq!(parse_number("-9223372036854775809"), None);
    assert_eq!(parse_number("18446744073709551616"), None);
    assert_eq!(parse_number("18446744073709551617"), None);
    assert_eq!(parse_number("99999999999999999999999999999999999999999"), None);
    assert_eq!(parse_number("-99999999999999999999999999999999999999999"), None);
}

#[test]
fn other_text_is_not_read() {
    for text in ["", "-", "+", "--1", "+-1", "1+", "1 ", " 1", "1.5", "0x10", "1e3", "one", "١٢"] {
        assert_eq!(parse_number(text), None);
    }
}

#[test]
fn numbers_are_written_in_decimal() {
    assert_eq!(text_of(0), "0");
    assert_eq!(text_of(7), "7");
    assert_eq!(text_of(10), "10");
    assert_eq!(text_of(-1), "-1");
    assert_eq!(text_of(1234567890), "1234567890");
    assert_eq!(text_of(i64::MAX), "9223372036854775807");
    assert_eq!(text_of(i64::MIN), "-9223372036854775808");
}

#[test]
fn writing_appends_to_what_is_there() {
    let mut out = String::from("n = ");
    write_number(&mut out, -30);
    write_number(&mut out, 5);
    assert_eq!(out, "n = -305");
}

#[test]
fn what_is_written_is_read_back() {
    for n in [0i64, 1, -1, 9, 10, 11, -99, 100, 4096, -65535, i64::MAX, i64::MIN] {
        assert_eq!(parse_number(&text_of(n)), Some(n));
        assert_eq!(text_of(n), n.to_string());
    }
}
