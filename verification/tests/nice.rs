use shuttle_christmas::nice::check_password;
use shuttle_christmas::password::Password;

fn nice(input: &str) -> bool {
    check_password(&Password { input: input.to_string() })
}

#[test]
fn nice_texts() {
    assert!(nice("hello there"));
    assert!(nice("aaa"));
    assert!(nice("yyy"));
    assert!(nice("aeiouu"));
}

#[test]
fn naughty_for_want_of_vowels() {
    assert!(!nice("hll thrr"));
    assert!(!nice("aabb"));
    assert!(!nice("AAEEII"));
    assert!(!nice(""));
}

#[test]
fn naughty_for_want_of_a_double() {
    assert!(!nice("hey you"));
    assert!(!nice("aeiou"));
}

#[test]
fn naughty_for_a_forbidden_pair() {
    assert!(!nice("abcd"));
    assert!(!nice("aaeeiiab"));
    assert!(!nice("aaeeiicd"));
    assert!(!nice("aaeeiipq"));
    assert!(!nice("aaeeiixy"));
    assert!(nice("aaeeiiba"));
    assert!(nice("aaeeiia b"));
}

#[test]
fn doubles_are_sought_among_the_bytes() {
    // The ideographic space has the bytes E3 80 80.
    assert!(nice("aei\u{3000}"));
    // Two different characters whose bytes never repeat side by side.
    assert!(!nice("aei\u{e9}\u{e8}"));
}
