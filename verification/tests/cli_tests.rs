use moesniper::cli::{
    context_command, decode_input, edit_hint, edits_promoted, manifest_hint, parse_invocation,
    parse_line, parse_range, plain_output, undo_hint, Command,
};
use moesniper::lines::split_lines_exec;

fn args(list: &[&str]) -> Vec<String> {
    list.iter().map(|s| s.to_string()).collect()
}

#[test]
fn line_numbers() {
    assert_eq!(parse_line("12"), Ok(12));
    assert_eq!(parse_line("+3"), Ok(3));
    assert_eq!(parse_line("x1").unwrap_err(), "invalid line number: x1");
    assert_eq!(parse_line("-1").unwrap_err(), "invalid line number: -1");
    assert_eq!(parse_range("a", "b").unwrap_err(), "invalid line number: a");
    assert_eq!(parse_range("1", "b").unwrap_err(), "invalid line number: b");
}

#[test]
fn decode_command() {
    assert_eq!(decode_input("  48656c6c6f\n"), Ok("Hello".to_string()));
    assert_eq!(decode_input("   ").unwrap_err(), "decode requires a hex string");
    assert_eq!(decode_input("zz").unwrap_err(), "hex decode: invalid hex character: 'z'");
}

#[test]
fn context_command_short_hash() {
    let lines = split_lines_exec("a\nb\nc\n");
    let h = context_command(&lines, 2, 2).unwrap();
    assert_eq!(h.len(), 16);
    assert_eq!(h, moesniper::context::compute_context_hash(&lines, 2, 2)[..16].to_string());
    assert!(context_command(&lines, 4, 3).is_ok());
    assert!(context_command(&lines, 5, 9).unwrap_err().contains("out of bounds"));
}

#[test]
fn hints() {
    assert_eq!(edit_hint("f.rs", 3, 4, false, false), "verify: read f.rs lines 3-4");
    assert_eq!(edit_hint("f.rs", 3, 4, true, false), "verify: f.rs around line 3");
    assert_eq!(
        edit_hint("f.rs", 3, 4, true, true),
        "Multiple edits to this file. Consider batching with manifest."
    );
    assert!(edits_promoted(3));
    assert!(!edits_promoted(2));
    assert_eq!(manifest_hint("f.rs", None), "verify: read f.rs around line 1");
    assert_eq!(manifest_hint("f.rs", Some(7)), "verify: read f.rs around line 7");
    assert_eq!(undo_hint("f.rs"), "verify restore: read f.rs");
}

#[test]
fn help_and_version() {
    assert!(matches!(parse_invocation(&args(&[])).command, Command::Help));
    assert!(matches!(parse_invocation(&args(&["--help", "x"])).command, Command::Help));
    assert!(matches!(parse_invocation(&args(&["-v"])).command, Command::Version));
    assert!(matches!(parse_invocation(&args(&["foo"])).command, Command::BadArgs));
}

#[test]
fn splice_commands() {
    let inv = parse_invocation(&args(&["f.txt", "2", "3", "7878", "--dry-run", "--json"]));
    assert!(inv.dry_run && inv.json && !inv.stdin);
    match inv.command {
        Command::Splice { file, start, end, content } => {
            assert_eq!((file.as_str(), start, end, content.as_str()), ("f.txt", 2, 3, "xx"));
        }
        _ => panic!("expected a splice"),
    }
    match parse_invocation(&args(&["f.txt", "2", "3", "--delete"])).command {
        Command::Splice { content, .. } => assert_eq!(content, ""),
        _ => panic!("expected a delete"),
    }
    match parse_invocation(&args(&["f.txt", "2", "3", "--delete", "--stdin"])).command {
        Command::Fail(m) => assert_eq!(m, "cannot use --stdin with --delete"),
        _ => panic!("expected a refusal"),
    }
    match parse_invocation(&args(&["f.txt", "x", "3", "41"])).command {
        Command::Fail(m) => assert_eq!(m, "invalid line number: x"),
        _ => panic!("expected a refusal"),
    }
    match parse_invocation(&args(&["f.txt", "1", "3", "4"])).command {
        Command::Fail(m) => assert_eq!(m, "hex decode: odd-length hex string: 1"),
        _ => panic!("expected a refusal"),
    }
    match parse_invocation(&args(&["--stdin", "f.txt", "1", "2"])).command {
        Command::SpliceStdin { file, start, end } => {
            assert_eq!((file.as_str(), start.as_str(), end.as_str()), ("f.txt", "1", "2"))
        }
        _ => panic!("expected a splice from stdin"),
    }
}

#[test]
fn context_flag_and_value_are_removed() {
    let inv = parse_invocation(&args(&["f.txt", "--context", "0123456789abcdef", "1", "1", "41"]));
    assert_eq!(inv.context_hash.as_deref(), Some("0123456789abcdef"));
    assert!(matches!(inv.command, Command::Splice { start: 1, end: 1, .. }));
    let inv = parse_invocation(&args(&["f.txt", "1", "1", "41", "--context"]));
    assert_eq!(inv.context_hash, None);
    assert!(matches!(inv.command, Command::Splice { .. }));
}

#[test]
fn other_commands() {
    assert!(matches!(parse_invocation(&args(&["decode", "--stdin"])).command, Command::DecodeStdin));
    assert!(matches!(parse_invocation(&args(&["decode"])).command, Command::BadArgs));
    match parse_invocation(&args(&["decode", "--file", "p"])).command {
        Command::DecodeFile(p) => assert_eq!(p, "p"),
        _ => panic!(),
    }
    match parse_invocation(&args(&["encode", "hi"])).command {
        Command::Encode(t) => assert_eq!(t, "hi"),
        _ => panic!(),
    }
    match parse_invocation(&args(&["context", "f", "2", "3"])).command {
        Command::Context { file, start, end } => assert_eq!((file.as_str(), start, end), ("f", 2, 3)),
        _ => panic!(),
    }
    match parse_invocation(&args(&["f", "--undo"])).command {
        Command::Undo(f) => assert_eq!(f, "f"),
        _ => panic!(),
    }
    match parse_invocation(&args(&["f", "--manifest", "ops.json"])).command {
        Command::Manifest { file, manifest } => assert_eq!((file.as_str(), manifest.as_str()), ("f", "ops.json")),
        _ => panic!(),
    }
    assert!(matches!(parse_invocation(&args(&["f", "--manifest", "--stdin"])).command, Command::ManifestStdin(_)));
    assert!(matches!(parse_invocation(&args(&["f", "--manifest"])).command, Command::BadArgs));
}

#[test]
fn plain_output_by_status() {
    assert_eq!(
        plain_output("ok", Some("f.txt"), None, 2, 3, None, None, None, None, None).unwrap(),
        vec!["ok: f.txt -2 +3"]
    );
    assert_eq!(
        plain_output("ok", None, Some("abcdef0123456789"), 0, 0, None, None, None, None, None).unwrap(),
        vec!["abcdef0123456789"]
    );
    assert_eq!(
        plain_output("restored", None, None, 0, 0, Some(".sniper/x.bak"), None, None, None, None).unwrap(),
        vec!["restored: .sniper/x.bak"]
    );
    assert_eq!(
        plain_output("encoded", None, Some("68656c6c6f"), 0, 0, None, None, None, None, None).unwrap(),
        vec!["68656c6c6f"]
    );
    assert_eq!(
        plain_output("error", None, Some("line range 9-9 out of bounds (file has 2 lines)"), 0, 0, None, None, None, None, None)
            .unwrap_err(),
        "error: line range 9-9 out of bounds (file has 2 lines)"
    );
    assert_eq!(
        plain_output("error", None, None, 0, 0, None, None, None, None, None).unwrap_err(),
        "error: unknown"
    );
}

#[test]
fn plain_output_of_a_dry_run() {
    let preview = vec!["--- original (lines 2-2)".to_string(), "-b".to_string()];
    let out = plain_output(
        "dry_run",
        Some("f.txt"),
        None,
        1,
        2,
        None,
        Some("first\nsecond"),
        Some(true),
        Some(&preview),
        Some("verify: f.txt around line 2"),
    )
    .unwrap();
    assert_eq!(
        out,
        vec![
            "=== DRY RUN PREVIEW ===",
            "File: f.txt",
            "Lines to remove: 1",
            "Lines to insert: 2",
            "\n\u{26a0}\u{fe0f}  INDENTATION WARNING:",
            "   first",
            "   second",
            "\n\u{2713} Auto-indent applied",
            "\n--- Diff Preview ---",
            "--- original (lines 2-2)",
            "-b",
            "\nHint: verify: f.txt around line 2",
        ]
    );
    let bare = plain_output("dry_run", None, None, 0, 0, None, None, Some(false), None, None).unwrap();
    assert_eq!(bare, vec!["=== DRY RUN PREVIEW ===", "File: ?", "Lines to remove: 0", "Lines to insert: 0"]);
}
