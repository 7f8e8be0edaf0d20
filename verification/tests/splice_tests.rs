use moesniper::lines::{render_file_exec, split_lines_exec};
use moesniper::splice::{check_context, check_range, plan_splice, splice_lines, splice_within_limits, SplicePlan};

fn lines_of(text: &str) -> Vec<String> {
    split_lines_exec(text)
}

fn plan(text: &str, start: usize, end: usize, content: &str) -> Result<SplicePlan, String> {
    plan_splice(&lines_of(text), start, end, content, false, false, true, None)
        .map_err(|f| f.message)
}

/// The file an edit leaves behind: the planned lines, written the way the
/// editor writes them (keeping whether the file ended in a newline).
fn edit(text: &str, start: usize, end: usize, content: &str) -> Result<String, String> {
    let p = plan(text, start, end, content)?;
    Ok(render_file_exec(&p.result_lines, text.ends_with('\n')))
}

#[test]
fn splice_replace_single_line() {
    let p = plan("line1\nline2\nline3\n", 2, 2, "hex").unwrap();
    assert_eq!(p.lines_removed, 1);
    assert_eq!(p.new_lines.len(), 1);
    assert_eq!(edit("line1\nline2\nline3\n", 2, 2, "hex").unwrap(), "line1\nhex\nline3\n");
}

#[test]
fn splice_keeps_trailing_newline_state() {
    assert_eq!(edit("line1\nline2", 2, 2, "new").unwrap(), "line1\nnew");
    assert_eq!(edit("line1\nline2\n", 2, 2, "new").unwrap(), "line1\nnew\n");
}

#[test]
fn splice_replace_range() {
    let p = plan("a\nb\nc\nd\ne\n", 2, 4, "X\nY").unwrap();
    assert_eq!(p.lines_removed, 3);
    assert_eq!(p.new_lines.len(), 2);
    assert_eq!(edit("a\nb\nc\nd\ne\n", 2, 4, "X\nY").unwrap(), "a\nX\nY\ne\n");
}

#[test]
fn splice_insert_at_end_forms() {
    assert_eq!(edit("a\nb\n", 2, 2, "c").unwrap(), "a\nc\n");
    assert_eq!(edit("a\nb\n", 3, 2, "c").unwrap(), "a\nb\nc\n");
    assert_eq!(edit("a\nb\n", 3, 3, "c").unwrap(), "a\nb\nc\n");
    assert_eq!(edit("a\n", 2, 2, "b").unwrap(), "a\nb\n");
    assert_eq!(edit("", 1, 1, "X").unwrap(), "X");
}

#[test]
fn splice_insert_before_first_line() {
    assert_eq!(edit("a\nb\nc\n", 1, 0, "X").unwrap(), "X\na\nb\nc\n");
}

#[test]
fn splice_deletes() {
    let p = plan("a\nb\nc\n", 2, 2, "").unwrap();
    assert_eq!(p.lines_removed, 1);
    assert!(p.new_lines.is_empty());
    assert_eq!(edit("a\nb\nc\n", 2, 2, "").unwrap(), "a\nc\n");
    assert_eq!(edit("a\nb\nc\nd\ne\n", 2, 4, "").unwrap(), "a\ne\n");
    assert_eq!(edit("a\nb\nc\n", 1, 3, "").unwrap(), "");
    assert_eq!(edit("a\nb", 1, 2, "").unwrap(), "");
    assert_eq!(edit("a\nb\n", 2, 2, "").unwrap(), "a\n");
    assert_eq!(edit("a\nb", 2, 2, "").unwrap(), "a");
    assert_eq!(edit("only", 1, 1, "new").unwrap(), "new");
}

#[test]
fn splice_range_errors() {
    assert_eq!(
        plan("a\nb\n", 10, 20, "x").err().unwrap(),
        "line range 10-20 out of bounds (file has 2 lines)"
    );
    assert!(plan("a\nb\n", 0, 1, "x").is_err());
    assert!(plan("a\n", 1, 2, "X").err().unwrap().contains("out of bounds"));
    assert!(plan("a\nb\n", 10, 2, "X").is_err());
    assert!(plan("a\nb\nc\n", 2, 0, "X").is_err());
    assert!(plan("a\nb\nc\n", 2, 4, "new").is_err());
    assert_eq!(
        plan("a\nb\nc\n", 5, 2, "x").err().unwrap(),
        "inverted range 5-2 is invalid (must satisfy start <= end + 1 to allow insertions at EOF)"
    );
    assert_eq!(check_range(3, 3, 2), Ok(()));
    assert_eq!(check_range(0, 0, 0).unwrap_err(), "line range 0-0 out of bounds (file has 0 lines)");
}

#[test]
fn splice_context_argument() {
    let lines = lines_of("a\nb\n");
    let r = plan_splice(&lines, 1, 1, "x", false, false, true, Some("abc"));
    assert_eq!(
        r.err().unwrap().message,
        "invalid --context length 3; expected 16 hex chars (e.g. a 16-char prefix from the context command)"
    );
    let r = plan_splice(&lines, 1, 1, "x", false, false, true, Some("zzzzzzzzzzzzzzzz"));
    assert!(r.err().unwrap().message.contains("invalid --context length"));
    let r = plan_splice(&lines, 1, 1, "x", false, false, true, Some("0000000000000000"));
    assert_eq!(
        r.err().unwrap().message,
        "context mismatch: content around line 1 changed. Re-read the file and retry."
    );
    let full = moesniper::context::compute_context_hash(&lines, 1, 1);
    assert!(check_context(&lines, 1, 1, &full[..16]).is_ok());
    let r = plan_splice(&lines, 1, 1, "x", false, false, true, Some(&full[..16]));
    assert!(r.is_ok());
}

#[test]
fn splice_indentation_refused_outside_dry_run() {
    let text = "def foo():\n    pass\n";
    let lines = lines_of(text);
    let r = plan_splice(&lines, 2, 2, "print('x')\n", false, false, false, None);
    let f = r.err().unwrap();
    assert_eq!(
        f.message,
        "Indentation validation failed: INDENTATION WARNING: Replacement has 0 leading space(s), expected 4 space(s) (diff: 4)"
    );
    assert!(f.indent_warning.is_some());
    // A dry run reports the warning and previews instead.
    let p = plan_splice(&lines, 2, 2, "print('x')\n", true, false, false, None).unwrap();
    assert!(p.indent_warning.unwrap().starts_with("INDENTATION WARNING"));
    assert!(p.diff_preview.is_some());
    // --force-indent skips the check.
    assert!(plan_splice(&lines, 2, 2, "print('x')\n", false, false, true, None).is_ok());
}

#[test]
fn splice_auto_indent_fixes_content() {
    let text = "def foo():\n    pass\n";
    let lines = lines_of(text);
    let p = plan_splice(&lines, 2, 2, "print('x')\nprint('y')", false, true, false, None).unwrap();
    assert_eq!(p.indent_fixed, Some(true));
    assert_eq!(p.new_lines, vec!["    print('x')\n".to_string(), "    print('y')".to_string()]);
    assert_eq!(
        render_file_exec(&p.result_lines, true),
        "def foo():\n    print('x')\n    print('y')\n"
    );
}

#[test]
fn splice_dry_run_delete_has_no_preview() {
    let lines = lines_of("a\nb\nc\n");
    let p = plan_splice(&lines, 1, 2, "", true, false, false, None).unwrap();
    assert_eq!(p.lines_removed, 2);
    assert!(p.diff_preview.is_none());
}

#[test]
fn splice_lines_keeps_surroundings() {
    let lines = lines_of("1\n2\n3\n4\n");
    let new = vec!["x\n".to_string()];
    assert_eq!(
        splice_lines(&lines, 2, 3, &new),
        vec!["1\n".to_string(), "x\n".to_string(), "4\n".to_string()]
    );
    assert_eq!(splice_lines(&lines, 5, 4, &new).len(), 5);
}

#[test]
fn splice_limits_and_shallow_closer() {
    let lines = lines_of("def foo():\n    if x:\n        pass\n");
    assert!(splice_within_limits(&lines, 3, 3, "  a\n}\n", false, true, false, None));
    let p = plan_splice(&lines, 3, 3, "  a\n}\n", false, true, false, None).unwrap();
    assert_eq!(p.new_lines, vec!["        a\n".to_string(), "      }".to_string()]);
    assert!(splice_within_limits(&lines, 3, 3, "  a\n}\n", false, false, true, None));
    assert!(splice_within_limits(&lines, 3, 3, "        a\n", false, true, false, None));
    assert!(!splice_within_limits(&lines, 3, usize::MAX, "x", false, false, true, None));
}

/// The file a command-line splice leaves (no dry run, no indentation flags).
fn splice_text(text: &str, start: usize, end: usize, content: &str, ctx: Option<&str>) -> Result<(String, usize, usize), String> {
    let p = plan_splice(&lines_of(text), start, end, content, false, false, false, ctx).map_err(|f| f.message)?;
    Ok((render_file_exec(&p.result_lines, text.ends_with('\n')), p.lines_removed, p.new_lines.len()))
}

#[test]
fn test_cmd_splice_replace_single_line() {
    let (text, removed, inserted) = splice_text("line1\nline2\nline3\n", 2, 2, "hex", None).unwrap();
    assert_eq!((removed, inserted), (1, 1));
    assert_eq!(text, "line1\nhex\nline3\n");
}

#[test]
fn test_cmd_splice_preserves_missing_trailing_newline() {
    let (text, _, _) = splice_text("line1\nline2", 2, 2, "new", None).unwrap();
    assert_eq!(text, "line1\nnew");
    assert!(!text.ends_with('\n'));
}

#[test]
fn test_cmd_splice_preserves_existing_trailing_newline() {
    let (text, _, _) = splice_text("line1\nline2\n", 2, 2, "new", None).unwrap();
    assert_eq!(text, "line1\nnew\n");
}

#[test]
fn test_cmd_splice_replace_range() {
    let (text, removed, inserted) = splice_text("a\nb\nc\nd\ne\n", 2, 4, "X\nY", None).unwrap();
    assert_eq!((removed, inserted), (3, 2));
    assert_eq!(text, "a\nX\nY\ne\n");
}

#[test]
fn test_cmd_splice_insert_at_end() {
    assert_eq!(splice_text("a\nb\n", 2, 2, "c", None).unwrap().0, "a\nc\n");
}

#[test]
fn test_cmd_splice_insert_at_end_start_gt_end() {
    assert_eq!(splice_text("a\nb\n", 3, 2, "c", None).unwrap().0, "a\nb\nc\n");
}

#[test]
fn test_cmd_splice_insert_at_end_start_eq_end() {
    assert_eq!(splice_text("a\nb\n", 3, 3, "c", None).unwrap().0, "a\nb\nc\n");
}

#[test]
fn test_cmd_splice_out_of_bounds() {
    assert!(splice_text("a\nb\n", 10, 20, "x", None).unwrap_err().contains("out of bounds"));
}

#[test]
fn test_cmd_splice_start_zero() {
    assert!(splice_text("a\nb\n", 0, 1, "x", None).is_err());
}

#[test]
fn test_cmd_splice_delete_single_line() {
    let (text, removed, inserted) = splice_text("a\nb\nc\n", 2, 2, "", None).unwrap();
    assert_eq!((removed, inserted), (1, 0));
    assert_eq!(text, "a\nc\n");
}

#[test]
fn test_cmd_splice_delete_range() {
    let (text, removed, inserted) = splice_text("a\nb\nc\nd\ne\n", 2, 4, "", None).unwrap();
    assert_eq!((removed, inserted), (3, 0));
    assert_eq!(text, "a\ne\n");
}

#[test]
fn test_context_verification_mismatch() {
    let msg = splice_text("a\nb\nc\nd\ne\nf\ng\nh\n", 3, 3, "NEW", Some("0000000000000000")).unwrap_err();
    assert!(msg.contains("context mismatch"));
}

#[test]
fn test_cmd_splice_delete_last_line_preserves_non_termination_if_possible() {
    assert_eq!(splice_text("a\nb", 2, 2, "", None).unwrap().0, "a");
}

#[test]
fn test_single_line_file() {
    assert_eq!(splice_text("only\n", 1, 1, "new", None).unwrap().0, "new\n");
}

#[test]
fn bug_probe_splice_start1_end0_insert_before_line1() {
    assert_eq!(splice_text("a\nb\nc\n", 1, 0, "X", None).unwrap().0, "X\na\nb\nc\n");
}

#[test]
fn bug_probe_empty_file_insert() {
    assert_eq!(splice_text("", 1, 1, "X", None).unwrap().0, "X");
}

#[test]
fn bug_probe_delete_all_lines() {
    assert_eq!(splice_text("a\nb\nc\n", 1, 3, "", None).unwrap().0, "");
}

#[test]
fn bug_probe_delete_all_lines_no_trailing() {
    assert_eq!(splice_text("a\nb", 1, 2, "", None).unwrap().0, "");
}

#[test]
fn bug_probe_delete_last_line_with_nl() {
    assert_eq!(splice_text("a\nb\n", 2, 2, "", None).unwrap().0, "a\n");
}

#[test]
fn bug_probe_delete_last_line_no_nl() {
    assert_eq!(splice_text("a\nb", 2, 2, "", None).unwrap().0, "a");
}

#[test]
fn bug_probe_end_beyond_file_length() {
    assert!(splice_text("a\n", 1, 2, "X", None).unwrap_err().contains("out of bounds"));
}

#[test]
fn bug_probe_start_beyond_len_end_valid() {
    assert!(splice_text("a\nb\n", 10, 2, "X", None).is_err());
}

#[test]
fn bug_probe_splice_start2_end0_rejected() {
    assert!(splice_text("a\nb\nc\n", 2, 0, "X", None).is_err());
}

#[test]
fn bug_probe_insert_at_very_end() {
    assert_eq!(splice_text("a\n", 2, 2, "b", None).unwrap().0, "a\nb\n");
}

#[test]
fn bug_probe_single_line_no_nl_replace() {
    assert_eq!(splice_text("only", 1, 1, "new", None).unwrap().0, "new");
}

#[test]
fn bug_python_parity_end_bound_looser_than_rust() {
    assert!(splice_text("a\nb\nc\n", 2, 4, "new", None).is_err());
}

#[test]
fn test_inverted_range_error_message() {
    assert!(splice_text("a\nb\nc\n", 5, 2, "x", None).unwrap_err().contains("inverted range"));
}

#[test]
fn test_context_hash_too_short_rejected() {
    assert!(splice_text("a\nb\n", 1, 1, "x", Some("abc")).unwrap_err().contains("invalid --context length"));
}

#[test]
fn test_context_hash_non_hex_rejected() {
    assert!(splice_text("a\nb\n", 1, 1, "x", Some("zzzzzzzzzzzzzzzz"))
        .unwrap_err()
        .contains("invalid --context length"));
}
