use prac::decimal::{push_decimal, push_digits};

fn written(n: i64) -> String {
    let mut text = String::new();
    push_decimal(&mut text, n);
    text
}

#[test]
fn whole_numbers_are_written_in_decimal() {
    assert_eq!(written(0), "0");
    assert_eq!(written(7), "7");
    assert_eq!(written(10), "10");
    assert_eq!(written(-1), "-1");
    assert_eq!(written(1_234_567_890), "1234567890");
    assert_eq!(written(i64::MAX), "9223372036854775807");
    assert_eq!(written(i64::MIN), "-9223372036854775808");
}

#[test]
fn digits_are_appended_to_what_is_there() {
    let mut text = String::from("n=");
    push_digits(&mut text, 0);
    push_digits(&mut text, u64::MAX);
    push_decimal(&mut text, -40);
    assert_eq!(text, "n=018446744073709551615-40");
}
