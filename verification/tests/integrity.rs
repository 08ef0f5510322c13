use download_manager_engine::integrity::ExpectedSha256;

#[test]
fn digest_is_strict_and_canonical_without_debug_disclosure() {
    let input = "A1".repeat(32);
    let digest = ExpectedSha256::parse(&input).expect("digest");
    assert_eq!(digest.to_hex(), input.to_lowercase());
    assert!(!format!("{digest:?}").contains("a1"));
    for invalid in [
        "g".repeat(64),
        "a".repeat(63),
        "a".repeat(65),
        "é".repeat(32),
    ] {
        assert!(ExpectedSha256::parse(&invalid).is_none());
    }
}

#[test]
fn digest_bytes_follow_high_nibble_first() {
    let digest = ExpectedSha256::parse(&format!("0fF0{}", "00".repeat(30))).expect("digest");
    let bytes = digest.bytes();
    assert_eq!(bytes[0], 0x0f);
    assert_eq!(bytes[1], 0xf0);
    assert_eq!(bytes[31], 0);
    assert_eq!(digest.to_hex(), format!("0ff0{}", "00".repeat(30)));
}

#[test]
fn canonical_digest_text_round_trips() {
    let text = "0123456789abcdef".repeat(4);
    let digest = ExpectedSha256::parse(&text).expect("digest");
    assert_eq!(digest.to_hex(), text);
    assert_eq!(ExpectedSha256::parse(&digest.to_hex()), Some(digest));
}

#[test]
fn printing_a_parsed_digest_gives_its_lowercase_text_which_parses_back() {
    let input = "A1".repeat(32);
    let digest = ExpectedSha256::parse(&input).expect("digest");
    let printed = digest.to_hex();
    assert_eq!(printed, "a1".repeat(32));
    assert_eq!(printed, input.to_ascii_lowercase());
    assert_eq!(ExpectedSha256::parse(&printed), Some(digest));
}
