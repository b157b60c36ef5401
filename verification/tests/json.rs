use gpui_window::json::{json_string, json_string_array};

#[test]
fn plain_text_is_quoted() {
    assert_eq!(json_string(""), "\"\"");
    assert_eq!(json_string("Save é/𝄞"), "\"Save é/𝄞\"");
}

#[test]
fn special_characters_are_escaped() {
    assert_eq!(json_string("a\"b"), "\"a\\\"b\"");
    assert_eq!(json_string("a\\b"), "\"a\\\\b\"");
    assert_eq!(json_string("\n\r\t"), "\"\\n\\r\\t\"");
    assert_eq!(json_string("\u{0}\u{8}\u{1f}"), "\"\\u0000\\u0008\\u001f\"");
    assert_eq!(json_string("\u{1a}\u{7f} "), "\"\\u001a\u{7f} \"");
}

#[test]
fn texts_that_could_be_mistaken_are_told_apart() {
    assert_ne!(json_string("\n"), json_string("\\n"));
    assert_ne!(json_string("\\u0000"), json_string("\u{0}"));
    assert_ne!(json_string("\","), json_string("\\\","));
}

#[test]
fn arrays_of_texts() {
    assert_eq!(json_string_array(&[]), "[]");
    assert_eq!(json_string_array(&[String::from("a")]), "[\"a\"]");
    assert_eq!(
        json_string_array(&[String::from("a"), String::from("\""), String::new()]),
        "[\"a\",\"\\\"\",\"\"]"
    );
    assert_ne!(
        json_string_array(&[String::from("a,b")]),
        json_string_array(&[String::from("a"), String::from("b")])
    );
}

#[test]
fn written_texts_hold_no_control_characters() {
    let text: String = (0u8..32).map(char::from).collect();
    assert!(json_string(&text).chars().all(|c| c >= ' '));
}
