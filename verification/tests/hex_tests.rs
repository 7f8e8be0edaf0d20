use moesniper::hex::{hex_decode, hex_encode};

#[test]
fn test_hex_decode_valid() {
    assert_eq!(hex_decode("48656c6c6f").unwrap(), "Hello");
}

#[test]
fn test_hex_decode_empty() {
    assert_eq!(hex_decode("").unwrap(), "");
}

#[test]
fn test_hex_decode_mixed_case() {
    assert_eq!(hex_decode("4A6F62").unwrap(), "Job");
}

#[test]
fn test_hex_decode_non_hex_chars() {
    assert!(hex_decode("zz").is_err());
}

#[test]
fn test_hex_decode_odd_length() {
    assert!(hex_decode("48650").is_err());
}

#[test]
fn hex_decode_error_messages() {
    assert_eq!(hex_decode("48650").unwrap_err(), "odd-length hex string: 5");
    assert_eq!(hex_decode("4g").unwrap_err(), "invalid hex character: 'g'");
    assert_eq!(hex_decode("é1").unwrap_err(), "odd-length hex string: 3");
    assert!(hex_decode("ff").unwrap_err().starts_with("utf8 decode: "));
}

#[test]
fn test_hex_decode_rejects_non_utf8() {
    let result = hex_decode("ff");
    assert!(result.is_err(), "0xFF must be rejected as invalid UTF-8");
    assert!(
        result.unwrap_err().contains("utf8"),
        "Error must mention UTF-8"
    );
}

#[test]
fn test_hex_decode_strips_whitespace() {
    let result = hex_decode(" 48 65 6c 6c 6f ").unwrap();
    assert_eq!(
        result, "Hello",
        "Whitespace must be stripped: got '{}'",
        result
    );
}

#[test]
fn test_hex_decode_rejects_unicode_surrogate_halves() {
    let result = hex_decode("EDA080");
    assert!(
        result.is_err(),
        "Surrogate halves must be rejected"
    );
}

#[test]
fn test_hex_decode_emoji_roundtrip() {
    let original = "🦀🚀✅";
    let encoded: String = original
        .as_bytes()
        .iter()
        .map(|b| format!("{:02x}", b))
        .collect();
    let decoded = hex_decode(&encoded).unwrap();
    assert_eq!(decoded, original, "Emoji roundtrip must be exact");
}

#[test]
fn test_hex_decode_special_chars_roundtrip() {
    let original = "line 1\nline 2\r\n\t\"quoted\" 'apostrophe' \\ backslash \0 null";
    let encoded: String = original
        .as_bytes()
        .iter()
        .map(|b| format!("{:02x}", b))
        .collect();
    let decoded = hex_decode(&encoded).unwrap();
    assert_eq!(
        decoded, original,
        "Special char roundtrip must be byte-exact"
    );
}

#[test]
fn encode_decode_roundtrip() {
    for text in ["", "a", "fn main() {}\n", "ünïcödé 🦀", "tab\tand\nnewline"] {
        assert_eq!(hex_decode(&hex_encode(text.as_bytes())).unwrap(), text);
    }
}

#[test]
fn upper_case_hex_round_trip() {
    for s in ["🦀🚀✅", "line 1\nline 2\r\n\t\"quoted\" \\ \0 null", ""] {
        let upper = hex_encode(s.as_bytes()).to_uppercase();
        assert_eq!(hex_decode(&upper).unwrap(), s);
    }
}
