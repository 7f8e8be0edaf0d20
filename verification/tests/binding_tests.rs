use moesniper::binding::{
    apply_batch, check_batch_hex, dal_level_from_name, edit_lines, edit_within_limits, run_batch,
};
use moesniper::config::DalLevel;
use moesniper::context::compute_context_hash;
use moesniper::hex::hex_encode;
use moesniper::lines::{render_file_exec, split_lines_exec};
use moesniper::manifest::{order_manifest_ops, ManifestOp};

fn lines_of(text: &str) -> Vec<String> {
    split_lines_exec(text)
}

fn op(start: usize, end: Option<usize>, hex: Option<&str>, delete: Option<bool>) -> ManifestOp {
    ManifestOp { start, end, hex: hex.map(String::from), delete }
}

#[test]
fn binding_edit_replaces_a_line() {
    let lines = lines_of("a\nb\nc\n");
    assert!(edit_within_limits(&lines, 2, 2, "X\n", false, false, false));
    let out = edit_lines(&lines, 2, 2, "X\n", false, false, None, false).unwrap();
    assert_eq!(out.lines_removed, 1);
    assert_eq!(out.lines_inserted, 1);
    assert_eq!(out.result_lines, vec!["a\n", "X\n", "c\n"]);
    assert!(out.diff_preview.is_none());
}

#[test]
fn binding_edit_range_errors_name_the_bounds() {
    let lines = lines_of("a\nb\nc\n");
    assert_eq!(
        edit_lines(&lines, 5, 6, "X\n", false, false, None, false).unwrap_err(),
        "line range 5-6 out of bounds (file has 3 lines)"
    );
    // An inverted range gets the same message here, and so does a start
    // one past the end (1 <= start <= end is required).
    assert_eq!(
        edit_lines(&lines, 3, 1, "X\n", false, false, None, false).unwrap_err(),
        "line range 3-1 out of bounds (file has 3 lines)"
    );
    assert_eq!(
        edit_lines(&lines, 3, 2, "X", false, false, None, false).unwrap_err(),
        "line range 3-2 out of bounds (file has 3 lines)"
    );
    assert_eq!(
        edit_lines(&lines, 4, 3, "X", false, false, None, false).unwrap_err(),
        "line range 4-3 out of bounds (file has 3 lines)"
    );
    assert_eq!(
        edit_lines(&lines, 0, 1, "X\n", false, false, None, false).unwrap_err(),
        "line range 0-1 out of bounds (file has 3 lines)"
    );
}

#[test]
fn binding_edit_inserts_at_end() {
    let lines = lines_of("a\nb\nc\n");
    let out = edit_lines(&lines, 4, 4, "d\n", false, false, None, false).unwrap();
    assert_eq!(out.lines_removed, 0);
    assert_eq!(out.lines_inserted, 1);
    assert_eq!(render_file_exec(&out.result_lines, true), "a\nb\nc\nd\n");
}

#[test]
fn binding_edit_delete_is_empty_content() {
    let lines = lines_of("a\nb\nc\nd\n");
    let out = edit_lines(&lines, 2, 3, "", false, false, None, false).unwrap();
    assert_eq!(out.lines_removed, 2);
    assert_eq!(out.lines_inserted, 0);
    assert_eq!(out.result_lines, vec!["a\n", "d\n"]);
}

#[test]
fn binding_edit_dry_run_previews_the_whole_file() {
    let lines = lines_of("a\nb\nc\n");
    let out = edit_lines(&lines, 2, 2, "X\n", false, false, None, true).unwrap();
    assert_eq!(out.diff_preview.unwrap(), "  a\n- b\n+ X\n\n  c");
    assert_eq!(out.result_lines, vec!["a\n", "X\n", "c\n"]);
    let del = edit_lines(&lines, 2, 3, "", false, false, None, true).unwrap();
    assert_eq!(del.diff_preview.unwrap(), "  a\n- b\n- c");
    let crlf = lines_of("a\r\nb\r\n");
    let p = edit_lines(&crlf, 1, 1, "", false, false, None, true).unwrap();
    assert_eq!(p.diff_preview.unwrap(), "- a\n  b");
}

#[test]
fn binding_edit_context_checked_after_range() {
    let lines = lines_of("a\nb\nc\nd\ne\n");
    let full = compute_context_hash(&lines, 3, 3);
    assert!(edit_lines(&lines, 3, 3, "X\n", false, false, Some(&full[..16]), false).is_ok());
    assert_eq!(
        edit_lines(&lines, 3, 3, "X\n", false, false, Some("0000000000000000"), false).unwrap_err(),
        "context mismatch: content around line 3 changed. Re-read the file and retry."
    );
    // No form check: a short value is simply a mismatch.
    assert_eq!(
        edit_lines(&lines, 3, 3, "X\n", false, false, Some("abc"), false).unwrap_err(),
        "context mismatch: content around line 3 changed. Re-read the file and retry."
    );
    // The range is checked first.
    assert_eq!(
        edit_lines(&lines, 9, 9, "X\n", false, false, Some("abc"), false).unwrap_err(),
        "line range 9-9 out of bounds (file has 5 lines)"
    );
}

#[test]
fn binding_edit_indentation() {
    let lines = lines_of("def foo():\n    pass\n");
    assert_eq!(
        edit_lines(&lines, 2, 2, "print('x')\n", false, false, None, false).unwrap_err(),
        "indentation validation failed: replacement content indent does not match surrounding context"
    );
    assert!(edit_lines(&lines, 2, 2, "print('x')\n", false, true, None, false).is_ok());
    assert!(edit_lines(&lines, 2, 2, "print('x')\n", false, false, None, true).is_ok());
    let fixed = edit_lines(&lines, 2, 2, "print('x')\nprint('y')", true, false, None, false).unwrap();
    assert_eq!(fixed.lines_inserted, 2);
    assert_eq!(
        render_file_exec(&fixed.result_lines, true),
        "def foo():\n    print('x')\n    print('y')\n"
    );
}

#[test]
fn binding_edit_reindents_a_shallow_closer() {
    let lines = lines_of("def foo():\n    if x:\n        pass\n");
    assert!(edit_within_limits(&lines, 3, 3, "  a\n}\n", true, false, false));
    let out = edit_lines(&lines, 3, 3, "  a\n}\n", true, false, None, false).unwrap();
    assert_eq!(out.result_lines[2], "        a\n");
    assert_eq!(out.result_lines[3], "      }");
    assert!(!edit_within_limits(&lines, 3, usize::MAX, "x", false, true, false));
}

#[test]
fn binding_batch_hex_is_checked_first() {
    let ops = vec![op(1, None, Some("41"), None), op(2, None, Some("zz"), None), op(3, None, Some("4"), None)];
    assert_eq!(check_batch_hex(&ops).unwrap_err(), "invalid hex character: 'z'");
    assert!(check_batch_hex(&vec![op(1, None, Some("41"), None), op(2, None, None, Some(true))]).is_ok());
}

#[test]
fn binding_batch_applies_bottom_up() {
    let lines = lines_of("line1\nline2\nline3\nline4\nline5\n");
    let ops = order_manifest_ops(vec![
        op(1, Some(1), Some("780a"), None),
        op(3, Some(4), None, Some(true)),
    ])
    .unwrap();
    let out = apply_batch(&lines, &ops, false, true, None, false).unwrap();
    assert_eq!(render_file_exec(&out.lines, true), "x\nline2\nline5\n");
    assert_eq!(out.lines_removed, 3);
    assert_eq!(out.lines_inserted, 1);
    // The line count is the starting count plus inserted minus removed.
    assert_eq!(out.lines.len() + out.lines_removed, lines.len() + out.lines_inserted);
}

#[test]
fn binding_batch_refusals_and_skips() {
    let lines = lines_of("a\nb\nc\n");
    let both = order_manifest_ops(vec![op(1, None, Some("41"), Some(true))]).unwrap();
    assert_eq!(
        apply_batch(&lines, &both, false, true, None, false).unwrap_err(),
        "Cannot both delete and insert in the same operation"
    );
    let out_of = order_manifest_ops(vec![op(7, Some(8), None, Some(true))]).unwrap();
    assert_eq!(
        apply_batch(&lines, &out_of, false, true, None, false).unwrap_err(),
        "line range 7-8 out of bounds (file has 3 lines)"
    );
    // An operation that neither deletes nor inserts is passed over.
    let neither = order_manifest_ops(vec![op(2, None, None, None), op(1, None, None, Some(true))]).unwrap();
    let out = apply_batch(&lines, &neither, false, true, None, false).unwrap();
    assert_eq!(out.lines, vec!["b\n", "c\n"]);
    assert_eq!(out.lines_removed, 1);
}

#[test]
fn binding_batch_indentation_and_context() {
    let lines = lines_of("def foo():\n    pass\n");
    let hex = hex_encode(b"print('x')");
    let ops = order_manifest_ops(vec![op(2, Some(2), Some(&hex), None)]).unwrap();
    assert_eq!(
        apply_batch(&lines, &ops, false, false, None, false).unwrap_err(),
        "indentation validation failed at line 2: INDENTATION WARNING: Replacement has 0 leading space(s), expected 4 space(s) (diff: 4)"
    );
    let fixed = apply_batch(&lines, &ops, true, false, None, false).unwrap();
    assert_eq!(render_file_exec(&fixed.lines, true), "def foo():\n    print('x')\n");
    assert!(apply_batch(&lines, &ops, false, false, None, true).is_ok());

    let text = lines_of("l1\nl2\nl3\nl4\nl5\nl6\nl7\n");
    let ctx = compute_context_hash(&text, 6, 6);
    let ops = order_manifest_ops(vec![op(3, None, Some("4e0a"), None), op(6, None, Some("4d0a"), None)]).unwrap();
    // The hash is checked before each inserting operation: it matches the
    // operation at line 6, not the one at line 3.
    assert_eq!(
        apply_batch(&text, &ops, false, true, Some(&ctx[..16]), false).unwrap_err(),
        "context mismatch: content around line 3 changed. Re-read the file and retry."
    );
    let single = order_manifest_ops(vec![op(6, None, Some("4d0a"), None)]).unwrap();
    assert!(apply_batch(&text, &single, false, true, Some(&ctx[..16]), false).is_ok());
    assert_eq!(
        apply_batch(&text, &ops, false, true, Some("0000000000000000"), false).unwrap_err(),
        "context mismatch: content around line 6 changed. Re-read the file and retry."
    );
}

#[test]
fn binding_batch_limits() {
    let lines = lines_of("def foo():\n    if x:\n        pass\n");
    let hex = hex_encode(b"  a\n}\n");
    let ops = order_manifest_ops(vec![op(3, Some(3), Some(&hex), None)]).unwrap();
    let out = run_batch(&lines, &ops, true, false, None, false).unwrap().unwrap();
    assert_eq!(out.lines[3], "      }");
    assert!(run_batch(&lines, &ops, false, true, None, false).is_some());
    let far = order_manifest_ops(vec![op(3, Some(usize::MAX), None, Some(true))]).unwrap();
    assert!(run_batch(&lines, &far, false, true, None, false).is_none());
}

#[test]
fn binding_dal_level_names() {
    assert_eq!(dal_level_from_name("baseline").unwrap(), DalLevel::Baseline);
    assert_eq!(dal_level_from_name("Enhanced").unwrap(), DalLevel::Enhanced);
    assert_eq!(dal_level_from_name("MAXIMUM").unwrap(), DalLevel::Maximum);
    assert_eq!(
        dal_level_from_name(" maximum").unwrap_err(),
        "Invalid DAL level. Use: BASELINE, ENHANCED, MAXIMUM"
    );
    assert!(dal_level_from_name("minimum").is_err());
}
