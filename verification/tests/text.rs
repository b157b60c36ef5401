use gpui_window::text::{
    characters, code_point, contains_char, eq_ignore_ascii_case, parse_u64, push_decimal,
    push_signed_decimal, same_text, starts_with, strip_prefix,
};

#[test]
fn characters_come_in_order() {
    assert_eq!(characters("aé𝄞"), vec!['a', 'é', '𝄞']);
    assert_eq!(code_point('é'), 0xe9);
}

#[test]
fn numbers_read_back_from_decimal() {
    for n in [0, 7, 10, 12345, u64::MAX] {
        let mut text = String::from("n");
        push_decimal(&mut text, u128::from(n));
        assert_eq!(text, format!("n{n}"));
        assert_eq!(parse_u64(&text[1..]), Some(n));
    }
    let mut text = String::new();
    push_decimal(&mut text, u128::MAX);
    assert_eq!(text, u128::MAX.to_string());
}

#[test]
fn numbers_are_read_like_the_standard_library_reads_them() {
    for text in [
        "0", "007", "+5", "+", "", "-1", " 1", "1 ", "1x", "18446744073709551615",
        "18446744073709551616", "99999999999999999999", "++1", "１",
    ] {
        assert_eq!(parse_u64(text), text.parse::<u64>().ok(), "{}", text);
    }
}

#[test]
fn signed_numbers_in_decimal() {
    for n in [0, 5, -5, i64::MAX, i64::MIN] {
        let mut text = String::new();
        push_signed_decimal(&mut text, n);
        assert_eq!(text, n.to_string());
    }
}

#[test]
fn ascii_case_is_ignored_and_no_other() {
    assert!(eq_ignore_ascii_case("Dark", "dARK"));
    assert!(!eq_ignore_ascii_case("Dark", "Darker"));
    assert!(!eq_ignore_ascii_case("é", "É"));
    assert!(!eq_ignore_ascii_case("[", "{"));
}

#[test]
fn prefixes() {
    assert!(starts_with("image|x", "image|"));
    assert!(!starts_with("im", "image|"));
    assert_eq!(strip_prefix("choice.ink", "choice."), Some(String::from("ink")));
    assert_eq!(strip_prefix("choice.", "choice."), Some(String::new()));
    assert_eq!(strip_prefix("chooser", "choice."), None);
}

#[test]
fn a_character_in_a_text() {
    assert!(contains_char("a/b", '/'));
    assert!(!contains_char("ab", '/'));
    assert!(!contains_char("", '/'));
}

#[test]
fn texts_are_compared_by_every_character() {
    assert!(same_text("", ""));
    assert!(same_text("aé𝄞", "aé𝄞"));
    assert!(!same_text("aé", "ae"));
    assert!(!same_text("a", "ab"));
    assert!(!same_text("ab", "aB"));
}
