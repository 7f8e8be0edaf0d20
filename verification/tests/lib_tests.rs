use moesniper::context::{compute_context_hash, verify_context};
use moesniper::errors::{backtrack_message, handle_backtrack_error, hint_for_error};
use moesniper::hex::hex_encode;
use sha2::Digest;
use std::io;

#[test]
fn test_compute_context_hash() {
    let lines: Vec<String> = vec![
        "1".into(),
        "2".into(),
        "3".into(),
        "4".into(),
        "5".into(),
        "6".into(),
        "7".into(),
        "8".into(),
        "9".into(),
        "10".into(),
    ];

    let start = 5;
    let end = 6;

    // expected to hash lines 2, 3, 4 before and 7, 8, 9 after
    let mut hasher = sha2::Sha256::new();
    hasher.update(b"2");
    hasher.update(b"3");
    hasher.update(b"4");
    hasher.update(b"7");
    hasher.update(b"8");
    hasher.update(b"9");
    let expected_hash = hex_encode(&hasher.finalize());

    let hash = compute_context_hash(&lines, start, end);
    assert_eq!(hash, expected_hash);
}

#[test]
fn context_hash_known_value_and_window_edges() {
    // No context at all (single-line file, whole file edited): SHA-256 of nothing.
    let lines: Vec<String> = vec!["only\n".into()];
    assert_eq!(
        compute_context_hash(&lines, 1, 1),
        "e3b0c44298fc1c149afbf4c8996fb92427ae41e4649b934ca495991b7852b855"
    );
    // Start line 0 and 1 both have nothing before them.
    let lines: Vec<String> = vec!["a".into(), "b".into(), "c".into()];
    assert_eq!(compute_context_hash(&lines, 0, 1), compute_context_hash(&lines, 1, 1));
}

#[test]
fn context_hash_ignores_the_edited_range() {
    let a: Vec<String> = vec!["a", "b", "c", "X", "Y", "d", "e"].into_iter().map(String::from).collect();
    let b: Vec<String> = vec!["a", "b", "c", "P", "Q", "d", "e"].into_iter().map(String::from).collect();
    assert_eq!(compute_context_hash(&a, 4, 5), compute_context_hash(&b, 4, 5));
    let c: Vec<String> = vec!["a", "b", "z", "X", "Y", "d", "e"].into_iter().map(String::from).collect();
    assert_ne!(compute_context_hash(&a, 4, 5), compute_context_hash(&c, 4, 5));
}

#[test]
fn test_handle_backtrack_error_signal_7() {
    let err = io::Error::from_raw_os_error(-7);
    let result = handle_backtrack_error(err, "TestContext");
    assert_eq!(
        result,
        "CRITICAL: TestContext aborted via llmosafe Backtrack Signal (-7). Immune memory triggered: current state matches a previously rolled-back failure pattern."
    );
}

#[test]
fn test_handle_backtrack_error_other() {
    let err = io::Error::new(io::ErrorKind::NotFound, "file not found");
    let result = handle_backtrack_error(err, "TestContext");
    assert_eq!(result, "TestContext: file not found");
}

#[test]
fn backtrack_message_from_parts() {
    assert_eq!(backtrack_message(Some(2), "No such file", "Read"), "Read: No such file");
    assert_eq!(backtrack_message(None, "boom", "Atomic write"), "Atomic write: boom");
    assert!(backtrack_message(Some(-7), "ignored", "Read").starts_with("CRITICAL: Read aborted"));
}

#[test]
fn error_hints() {
    assert_eq!(hint_for_error("read file: No such file or directory"), "fix error and retry");
    assert_eq!(hint_for_error("no such file"), "check path exists before editing");
    assert_eq!(hint_for_error("file not found"), "check path exists before editing");
    assert_eq!(
        hint_for_error("line range 9-9 out of bounds (file has 2 lines)"),
        "read file first to check line count"
    );
    assert_eq!(hint_for_error("end exceeds file length"), "read file first to check line count");
    assert_eq!(hint_for_error("anything else"), "fix error and retry");
}

#[test]
fn test_hex_encode() {
    assert_eq!(hex_encode(b""), "");
    assert_eq!(hex_encode(b"hello"), "68656c6c6f");
    assert_eq!(hex_encode(b"\x00\xff"), "00ff");
}

#[test]
fn test_verify_context_match() {
    let lines: Vec<String> = vec![
        "a".into(),
        "b".into(),
        "c".into(),
        "X".into(),
        "Y".into(),
        "Z".into(),
        "d".into(),
        "e".into(),
        "f".into(),
    ];
    let expected_hash = compute_context_hash(&lines, 4, 6);
    let result = verify_context(&lines, 4, 6, &expected_hash[..16]);
    assert!(result.is_ok(), "verify_context should return Ok for matching hash, got {:?}", result);
}

#[test]
fn test_verify_context_mismatch() {
    let lines: Vec<String> = vec![
        "a".into(),
        "b".into(),
        "c".into(),
        "X".into(),
        "Y".into(),
        "Z".into(),
        "d".into(),
        "e".into(),
        "f".into(),
    ];
    let wrong_hash = "0000000000000000";
    let result = verify_context(&lines, 4, 6, wrong_hash);
    assert!(result.is_err(), "verify_context should return Err for wrong hash");
    let err_msg = result.unwrap_err();
    assert!(
        err_msg.contains("context mismatch"),
        "error message should contain 'context mismatch', got: {}",
        err_msg
    );
    assert_eq!(
        err_msg,
        "context mismatch: content around line 4 changed. Re-read the file and retry."
    );
}
