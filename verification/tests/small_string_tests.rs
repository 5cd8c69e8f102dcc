use alpino_tokenizer::SmallString;

fn lorem() -> String {
    "Lorem ipsum dolor sit amet, consectetur adipiscing elit, sed do eiusmod tempor incididunt ut labore et dolore magna aliqua. Ut enim ad minim veniam, quis nostrud exercitation ullamco laboris nisi ut aliquip ex ea commodo consequat. Duis aute irure dolor in reprehenderit in voluptate velit esse cillum dolore eu fugiat nulla pariatur. Excepteur sint occaecat cupidatat non proident, sunt in culpa qui officia deserunt mollit anim id est laborum.".to_string()
}

fn as_text(s: &SmallString) -> String {
    s.chars().into_iter().collect()
}

#[test]
fn small_string_from_str() {
    let small = SmallString::from_str_slice("hello");
    assert!(matches!(small, SmallString::Array { .. }));
    assert_eq!(as_text(&small), "hello");

    let large = SmallString::from_str_slice(&lorem());
    assert!(matches!(large, SmallString::String(_)));
    assert_eq!(as_text(&large), lorem());
}

#[test]
fn small_string_from_string() {
    let small = SmallString::from_string("hello".to_string());
    assert!(matches!(small, SmallString::Array { .. }));
    assert_eq!(as_text(&small), "hello");

    let large = SmallString::from_string(lorem());
    assert!(matches!(large, SmallString::String(_)));
    assert_eq!(as_text(&large), lorem());
}

#[test]
fn small_string_length_and_chars() {
    let s = SmallString::from_str_slice("abc");
    assert_eq!(s.char_len(), 3);
    assert_eq!(s.char_at(0), 'a');
    assert_eq!(s.char_at(2), 'c');

    let empty = SmallString::from_str_slice("");
    assert_eq!(empty.char_len(), 0);
    assert!(matches!(empty, SmallString::Array { .. }));
}
