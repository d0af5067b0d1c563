use shuttle_christmas::digest::sha256_hex_digits;

fn hex(text: &str) -> String {
    sha256_hex_digits(text).into_iter().collect()
}

#[test]
fn digest_of_known_texts() {
    assert_eq!(hex("abc"), "ba7816bf8f01cfea414140de5dae2223b00361a396177a9cb410ff61f20015ad");
    assert_eq!(hex(""), "e3b0c44298fc1c149afbf4c8996fb92427ae41e4649b934ca495991b7852b855");
}

#[test]
fn digest_is_taken_of_the_utf8_bytes() {
    assert_eq!(
        hex("héllo 😀"),
        "a53c56966616f0ec3ed9db7ea07a6034430149528bbaba8966c284f9373669c2"
    );
}

#[test]
fn digest_has_64_lower_case_digits() {
    for text in ["", "a", "Aa2000.23⦀😀-v"] {
        let digits = sha256_hex_digits(text);
        assert_eq!(digits.len(), 64);
        assert!(digits.iter().all(|c| c.is_ascii_digit() || ('a'..='f').contains(c)));
    }
}
