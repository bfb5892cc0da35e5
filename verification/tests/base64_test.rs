use gemini_web2api::base64::decode;

#[test]
fn decode_full_groups() {
    assert_eq!(decode("TWFu"), Some(b"Man".to_vec()));
    assert_eq!(decode("aGVsbG8gd29ybGQ="), Some(b"hello world".to_vec()));
}

#[test]
fn decode_with_padding() {
    assert_eq!(decode("TWE="), Some(b"Ma".to_vec()));
    assert_eq!(decode("TQ=="), Some(b"M".to_vec()));
}

#[test]
fn decode_ignores_whitespace_anywhere() {
    assert_eq!(decode("TW Fu\n"), Some(b"Man".to_vec()));
    assert_eq!(decode("\tT\r\nWFu"), decode("TWFu"));
}

#[test]
fn decode_empty_input() {
    assert_eq!(decode(""), Some(Vec::new()));
    assert_eq!(decode("=="), Some(Vec::new()));
}

#[test]
fn decode_rejects_foreign_bytes() {
    assert_eq!(decode("TW!u"), None);
    assert_eq!(decode("TWFu-"), None);
    assert_eq!(decode("é"), None);
}

#[test]
fn decode_length_is_three_quarters_of_the_characters() {
    // 7 alphabet characters: 42 bits, five whole bytes
    let out = decode("TWFuTWE").unwrap();
    assert_eq!(out.len(), 5);
    assert_eq!(out, b"ManMa".to_vec());
    // a lone trailing character carries no whole byte
    assert_eq!(decode("TWFuT").unwrap().len(), 3);
}

#[test]
fn decode_url_safe_alphabet_is_refused() {
    assert_eq!(decode("-_"), None);
    assert_eq!(decode("+/"), Some(vec![0xfb]));
}
