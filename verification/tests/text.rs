use billing_api::text::{decimal_text, parse_i32};

#[test]
fn decimal_text_of_numbers() {
    assert_eq!(decimal_text(0), "0");
    assert_eq!(decimal_text(i64::MIN), i64::MIN.to_string());
    assert_eq!(decimal_text(i64::MAX), i64::MAX.to_string());
    assert_eq!(decimal_text(-10), "-10");
}

#[test]
fn parse_i32_agrees_with_std() {
    for text in [
        "", "-", "+", "0", "-0", "+7", "007", "12a", "a12", "--5", "+-5", " 5", "5 ",
        "2147483647", "2147483648", "-2147483648", "-2147483649", "99999999999999999999999",
        "\u{0663}", "1_000",
    ] {
        assert_eq!(parse_i32(text), text.parse::<i32>().ok(), "{text:?}");
    }
}

#[test]
fn decimal_text_reads_back() {
    for n in [i32::MIN, -100, -1, 0, 7, 10, 99, i32::MAX] {
        assert_eq!(parse_i32(&decimal_text(n as i64)), Some(n));
    }
}
