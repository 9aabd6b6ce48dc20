use besinveri::strings::{chars_of, lower_char, same_text, text_begins_with, to_ascii_lower};

#[test]
fn ascii_lowering() {
    assert_eq!(to_ascii_lower("Hello WORLD az AZ @[`{"), "hello world az az @[`{");
    assert_eq!(to_ascii_lower("ÇAY İÇ"), "Çay İÇ");
    assert_eq!(to_ascii_lower(""), "");
    for code in 0u32..=0x10FFFF {
        if let Some(c) = char::from_u32(code) {
            assert_eq!(lower_char(c), c.to_ascii_lowercase());
        }
    }
}

#[test]
fn characters_of_a_text() {
    assert_eq!(chars_of("çay"), vec!['ç', 'a', 'y']);
    assert_eq!(chars_of(""), Vec::<char>::new());
}

#[test]
fn comparing_texts() {
    assert!(same_text("", ""));
    assert!(same_text("elma", "elma"));
    assert!(!same_text("elma", "Elma"));
    assert!(!same_text("elma", "elmas"));
    assert!(text_begins_with("/food/elma", "/food"));
    assert!(text_begins_with("/food", "/food"));
    assert!(text_begins_with("x", ""));
    assert!(!text_begins_with("/foo", "/food"));
    assert!(!text_begins_with("a/food", "/food"));
}
