use diskstats::decimal::{parse_digits, parse_i64, MAX_MAGNITUDE};

#[test]
fn plain_digits() {
    assert_eq!(parse_i64("0"), Some(0));
    assert_eq!(parse_i64("7"), Some(7));
    assert_eq!(parse_i64("1600"), Some(1600));
    assert_eq!(parse_i64("1234567890"), Some(1234567890));
}

#[test]
fn leading_zeros() {
    assert_eq!(parse_i64("007"), Some(7));
    assert_eq!(parse_i64("0000000000000000000000000000000000000042"), Some(42));
    assert_eq!(parse_i64("-000"), Some(0));
}

#[test]
fn signs() {
    assert_eq!(parse_i64("+5"), Some(5));
    assert_eq!(parse_i64("-5"), Some(-5));
    assert_eq!(parse_i64("-0"), Some(0));
    assert_eq!(parse_i64("+0"), Some(0));
}

#[test]
fn a_sign_needs_digits() {
    assert_eq!(parse_i64("+"), None);
    assert_eq!(parse_i64("-"), None);
    assert_eq!(parse_i64("--5"), None);
    assert_eq!(parse_i64("+-5"), None);
    assert_eq!(parse_i64("-+5"), None);
    assert_eq!(parse_i64("5-"), None);
    assert_eq!(parse_i64("5+5"), None);
}

#[test]
fn empty_text_is_no_number() {
    assert_eq!(parse_i64(""), None);
}

#[test]
fn other_characters_are_refused() {
    assert_eq!(parse_i64("1x"), None);
    assert_eq!(parse_i64("x1"), None);
    assert_eq!(parse_i64("12 "), None);
    assert_eq!(parse_i64(" 12"), None);
    assert_eq!(parse_i64("1_000"), None);
    assert_eq!(parse_i64("1.5"), None);
    assert_eq!(parse_i64("0x10"), None);
    assert_eq!(parse_i64("1e3"), None);
    assert_eq!(parse_i64("\u{661}"), None);
    assert_eq!(parse_i64("1/"), None);
    assert_eq!(parse_i64("1:"), None);
}

#[test]
fn the_ends_of_the_range() {
    assert_eq!(parse_i64("9223372036854775807"), Some(i64::MAX));
    assert_eq!(parse_i64("+9223372036854775807"), Some(i64::MAX));
    assert_eq!(parse_i64("-9223372036854775808"), Some(i64::MIN));
    assert_eq!(parse_i64("-9223372036854775807"), Some(i64::MIN + 1));
    assert_eq!(parse_i64("9223372036854775806"), Some(i64::MAX - 1));
}

#[test]
fn beyond_the_range() {
    assert_eq!(parse_i64("9223372036854775808"), None);
    assert_eq!(parse_i64("-9223372036854775809"), None);
    assert_eq!(parse_i64("9223372036854775810"), None);
    assert_eq!(parse_i64("18446744073709551616"), None);
    assert_eq!(parse_i64("99999999999999999999999999999999999999999999"), None);
    assert_eq!(parse_i64("-99999999999999999999999999999999999999999999"), None);
}

#[test]
fn too_large_before_a_bad_character() {
    assert_eq!(parse_i64("99999999999999999999999999x"), None);
}

#[test]
fn numbers_agree_with_the_standard_parser() {
    let samples = [
        "", "0", "-0", "+0", "1", "-1", "+1", "10", "0010", "1600", "512", "+", "-", "++1", "a",
        "1a", "a1", "9223372036854775807", "9223372036854775808", "-9223372036854775808",
        "-9223372036854775809", "92233720368547758070", " 1", "1 ", "1\n", "\u{ff11}",
    ];
    for text in samples {
        assert_eq!(parse_i64(text), text.parse::<i64>().ok(), "{:?}", text);
    }
}

#[test]
fn digits_up_to_a_limit() {
    assert_eq!(parse_digits(&['1', '2'], 100), Some(12));
    assert_eq!(parse_digits(&['1', '0', '0'], 100), Some(100));
    assert_eq!(parse_digits(&['1', '0', '1'], 100), None);
    assert_eq!(parse_digits(&['0'], 0), Some(0));
    assert_eq!(parse_digits(&['0', '0', '0'], 0), Some(0));
    assert_eq!(parse_digits(&['1'], 0), None);
    assert_eq!(parse_digits(&['9'], 8), None);
    assert_eq!(parse_digits(&['9'], 9), Some(9));
}

#[test]
fn digits_need_a_digit_and_nothing_else() {
    assert_eq!(parse_digits(&[], 100), None);
    assert_eq!(parse_digits(&['+', '1'], 100), None);
    assert_eq!(parse_digits(&['-', '1'], 100), None);
    assert_eq!(parse_digits(&['1', ' '], 100), None);
    assert_eq!(parse_digits(&['/'], 100), None);
    assert_eq!(parse_digits(&[':'], 100), None);
}

#[test]
fn digits_up_to_the_largest_limits() {
    let most: Vec<char> = "18446744073709551615".chars().collect();
    let more: Vec<char> = "18446744073709551616".chars().collect();
    assert_eq!(parse_digits(&most, u64::MAX), Some(u64::MAX));
    assert_eq!(parse_digits(&most, u64::MAX - 1), None);
    assert_eq!(parse_digits(&more, u64::MAX), None);
    let least: Vec<char> = "9223372036854775808".chars().collect();
    assert_eq!(MAX_MAGNITUDE, 9223372036854775808);
    assert_eq!(parse_digits(&least, MAX_MAGNITUDE), Some(MAX_MAGNITUDE));
    assert_eq!(parse_digits(&least, MAX_MAGNITUDE - 1), None);
}
