use diskstats::chars::{chars_of, is_whitespace};
use diskstats::fields::split_fields;

fn words(words: &[&str]) -> Vec<String> {
    words.iter().map(|w| w.to_string()).collect()
}

#[test]
fn chars_are_kept_in_order() {
    assert_eq!(chars_of(""), Vec::<char>::new());
    assert_eq!(chars_of("sda"), vec!['s', 'd', 'a']);
    assert_eq!(chars_of("a\u{e9}\u{3000}b"), vec!['a', '\u{e9}', '\u{3000}', 'b']);
}

#[test]
fn ascii_separators() {
    assert!(is_whitespace(' '));
    assert!(is_whitespace('\t'));
    assert!(is_whitespace('\n'));
    assert!(is_whitespace('\u{b}'));
    assert!(is_whitespace('\u{c}'));
    assert!(is_whitespace('\r'));
    assert!(!is_whitespace('a'));
    assert!(!is_whitespace('0'));
    assert!(!is_whitespace('/'));
    assert!(!is_whitespace('\0'));
    assert!(!is_whitespace('\u{8}'));
    assert!(!is_whitespace('\u{e}'));
    assert!(!is_whitespace('\u{1f}'));
    assert!(!is_whitespace('!'));
}

#[test]
fn separators_beyond_ascii() {
    assert!(is_whitespace('\u{85}'));
    assert!(is_whitespace('\u{a0}'));
    assert!(is_whitespace('\u{1680}'));
    assert!(is_whitespace('\u{2000}'));
    assert!(is_whitespace('\u{200a}'));
    assert!(is_whitespace('\u{2028}'));
    assert!(is_whitespace('\u{2029}'));
    assert!(is_whitespace('\u{202f}'));
    assert!(is_whitespace('\u{205f}'));
    assert!(is_whitespace('\u{3000}'));
    assert!(!is_whitespace('\u{200b}'));
    assert!(!is_whitespace('\u{180e}'));
    assert!(!is_whitespace('\u{feff}'));
    assert!(!is_whitespace('\u{1fff}'));
    assert!(!is_whitespace('\u{2027}'));
}

#[test]
fn separators_are_the_white_space_characters() {
    let mut code: u32 = 0;
    while code <= 0x10ffff {
        if let Some(c) = char::from_u32(code) {
            assert_eq!(is_whitespace(c), c.is_whitespace(), "U+{:04X}", code);
        }
        code += 1;
    }
}

#[test]
fn no_fields_in_empty_or_blank_text() {
    assert_eq!(split_fields(""), Vec::<String>::new());
    assert_eq!(split_fields(" "), Vec::<String>::new());
    assert_eq!(split_fields(" \t \n"), Vec::<String>::new());
}

#[test]
fn a_word_is_one_field() {
    assert_eq!(split_fields("sda"), words(&["sda"]));
    assert_eq!(split_fields("x"), words(&["x"]));
}

#[test]
fn runs_of_separators_count_once() {
    assert_eq!(split_fields("a b"), words(&["a", "b"]));
    assert_eq!(split_fields("a   b"), words(&["a", "b"]));
    assert_eq!(split_fields("a \t\t b\tc"), words(&["a", "b", "c"]));
}

#[test]
fn separators_at_the_ends_add_nothing() {
    assert_eq!(split_fields("  a b"), words(&["a", "b"]));
    assert_eq!(split_fields("a b  "), words(&["a", "b"]));
    assert_eq!(split_fields("\ta b\n"), words(&["a", "b"]));
    assert_eq!(split_fields("   8       0 sda 100\n"), words(&["8", "0", "sda", "100"]));
}

#[test]
fn fields_keep_their_characters() {
    assert_eq!(
        split_fields("cciss/c0d0 \u{e9}t\u{e9}\u{a0}nul\0l"),
        words(&["cciss/c0d0", "\u{e9}t\u{e9}", "nul\0l"])
    );
}

#[test]
fn fields_of_joined_text() {
    let left = " 8 0 sda";
    let right = "100 0\t1600 ";
    let mut expected = split_fields(left);
    expected.extend(split_fields(right));
    assert_eq!(split_fields(&format!("{} {}", left, right)), expected);
    assert_eq!(split_fields(&format!("{}{}", left, " 9")), words(&["8", "0", "sda", "9"]));
    assert_eq!(split_fields(&format!("{}{}", left, "9")), words(&["8", "0", "sda9"]));
}

#[test]
fn fields_agree_with_split_whitespace() {
    let samples = [
        "",
        " ",
        "a",
        " a",
        "a ",
        "   8       0 sda 100 0 1600 50 0 0 0 0 0 20 50",
        " 259       1 nvme0n1p1 382 0 28328 61 2 0 2 0 0 84 61 0 0 0 0 0 0\n",
        "\u{3000}wide\u{2003}gaps\u{85}here",
        "tab\tand\r\nline ends",
        "one\u{200b}word",
    ];
    for text in samples {
        let expected: Vec<String> = text.split_whitespace().map(|w| w.to_string()).collect();
        assert_eq!(split_fields(text), expected, "{:?}", text);
    }
}
