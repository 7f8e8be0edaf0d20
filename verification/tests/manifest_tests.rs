use moesniper::context::compute_context_hash;
use moesniper::hex::hex_encode;
use moesniper::lines::{render_file_exec, split_lines_exec};
use moesniper::manifest::{
    apply_manifest_ops, check_manifest_context, order_manifest_ops, ManifestOp,
};

fn op(start: usize, end: Option<usize>, hex: Option<&str>, delete: Option<bool>) -> ManifestOp {
    ManifestOp { start, end, hex: hex.map(String::from), delete }
}

fn run(text: &str, ops: Vec<ManifestOp>, dry_run: bool) -> Result<(String, usize, usize), String> {
    let lines = split_lines_exec(text);
    let ordered = order_manifest_ops(ops)?;
    let out = apply_manifest_ops(&lines, &ordered, dry_run, false, true).map_err(|f| f.message)?;
    Ok((render_file_exec(&out.lines, text.ends_with('\n')), out.lines_removed, out.lines_inserted))
}

#[test]
fn manifest_batch_applies_bottom_up() {
    let ops = vec![op(1, Some(1), Some("78"), None), op(3, Some(4), None, Some(true))];
    let (text, removed, inserted) = run("line1\nline2\nline3\nline4\nline5\n", ops, false).unwrap();
    assert_eq!(text, "x\nline2\nline5\n");
    assert_eq!(removed, 3);
    assert_eq!(inserted, 1);
}

#[test]
fn manifest_order_is_descending_and_rejects_shared_starts() {
    let ordered = order_manifest_ops(vec![
        op(1, None, Some("61"), None),
        op(7, None, Some("62"), None),
        op(4, None, Some("63"), None),
    ])
    .unwrap();
    let starts: Vec<usize> = ordered.iter().map(|o| o.start).collect();
    assert_eq!(starts, vec![7, 4, 1]);
    let err = order_manifest_ops(vec![
        op(3, Some(3), None, Some(true)),
        op(3, Some(3), Some("58"), None),
        op(5, None, None, Some(true)),
        op(5, None, None, Some(true)),
    ])
    .err()
    .unwrap();
    assert_eq!(err, "overlapping manifest operations at line 5");
}

#[test]
fn manifest_refusals() {
    assert_eq!(
        run("a\nb\n", vec![op(10, Some(15), None, Some(true))], false).unwrap_err(),
        "line range 10-15 out of bounds (file has 2 lines)"
    );
    assert!(run("a\nb\n", vec![op(0, Some(1), None, Some(true))], false)
        .unwrap_err()
        .contains("out of bounds"));
    assert_eq!(
        run("a\nb\nc\n", vec![op(1, Some(1), None, None)], false).unwrap_err(),
        "manifest operation at line 1 must specify either 'delete' or 'hex'"
    );
    assert_eq!(
        run("a\nb\n", vec![op(1, Some(1), Some("58"), Some(true))], false).unwrap_err(),
        "Cannot both delete and insert in the same manifest operation"
    );
    assert_eq!(
        run("a\nb\n", vec![op(1, Some(1), Some("5"), None)], false).unwrap_err(),
        "hex decode: odd-length hex string: 1"
    );
}

#[test]
fn manifest_edge_inserts() {
    assert_eq!(run("", vec![op(1, Some(1), Some("58"), None)], false).unwrap().0, "X");
    assert_eq!(run("a\nb\nc\n", vec![op(1, Some(0), Some("58"), None)], false).unwrap().0, "X\na\nb\nc\n");
    // An operation with delete set to false inserts.
    assert_eq!(
        run("a\nb\n", vec![op(2, None, Some("7a"), Some(false))], false).unwrap().0,
        "a\nz\n"
    );
}

#[test]
fn manifest_dry_run_previews_each_operation() {
    let lines = split_lines_exec("a\nb\nc\n");
    let ordered = order_manifest_ops(vec![op(1, Some(1), Some("78"), None), op(3, None, None, Some(true))]).unwrap();
    let out = apply_manifest_ops(&lines, &ordered, true, false, false).unwrap();
    assert_eq!(out.previews.len(), 2);
    assert_eq!((out.previews[0].start, out.previews[0].end), (3, 3));
    assert_eq!((out.previews[1].start, out.previews[1].end), (1, 1));
    assert_eq!(out.previews[1].diff_preview[0], "--- original (lines 1-1)");
    assert_eq!(out.lines.len(), 2);
}

#[test]
fn manifest_indentation_refusal_names_the_line() {
    let text = "def foo():\n    pass\n";
    let lines = split_lines_exec(text);
    let hex = hex_encode(b"print('x')");
    let ordered = order_manifest_ops(vec![op(2, Some(2), Some(&hex), None)]).unwrap();
    let f = apply_manifest_ops(&lines, &ordered, false, false, false).err().unwrap();
    assert_eq!(
        f.message,
        "Indentation validation failed at line 2: INDENTATION WARNING: Replacement has 0 leading space(s), expected 4 space(s) (diff: 4)"
    );
    let fixed = apply_manifest_ops(&lines, &ordered, false, true, false).unwrap();
    assert_eq!(render_file_exec(&fixed.lines, true), "def foo():\n    print('x')\n");
}

#[test]
fn manifest_context_gate_uses_first_bottom_up_op() {
    let content = "line1\nline2\nline3\nline4\nline5\nline6\nline7\nline8\nline9\n";
    let lines = split_lines_exec(content);
    let ctx = compute_context_hash(&lines, 6, 6);
    let ordered = order_manifest_ops(vec![
        op(3, Some(3), Some("4e455731"), None),
        op(6, Some(6), Some("4e455732"), None),
    ])
    .unwrap();
    assert!(check_manifest_context(&lines, &ordered, &ctx[..16]).is_ok());
    assert_eq!(
        check_manifest_context(&lines, &ordered, "0000000000000000").unwrap_err(),
        "context mismatch: content around line 6 changed. Re-read the file and retry."
    );
    assert!(check_manifest_context(&lines, &Vec::new(), "0000000000000000").is_ok());
    assert!(check_manifest_context(&lines, &Vec::new(), "abc").is_err());
}

#[test]
fn test_cmd_manifest_batch() {
    let ops = vec![op(1, Some(1), Some("78"), None), op(3, Some(4), None, Some(true))];
    assert_eq!(run("line1\nline2\nline3\nline4\nline5\n", ops, false).unwrap().0, "x\nline2\nline5\n");
}

#[test]
fn test_cmd_manifest_out_of_bounds() {
    let ops = vec![op(10, Some(15), None, Some(true))];
    assert!(run("a\nb\n", ops, false).unwrap_err().contains("out of bounds"));
}

#[test]
fn bug_probe_manifest_start1_end0() {
    assert_eq!(run("a\nb\nc\n", vec![op(1, Some(0), Some("58"), None)], false).unwrap().0, "X\na\nb\nc\n");
}

#[test]
fn bug_probe_manifest_empty_file_insert() {
    assert_eq!(run("", vec![op(1, Some(1), Some("58"), None)], false).unwrap().0, "X");
}

#[test]
fn bug_probe_manifest_start_zero() {
    let err = run("a\nb\n", vec![op(0, Some(1), None, Some(true))], false).unwrap_err();
    assert!(err.contains("out of bounds"));
}

#[test]
fn bug_probe_manifest_silent_noop() {
    assert!(run("a\nb\nc\n", vec![op(1, Some(1), None, None)], false).is_err());
}

#[test]
fn bug_probe_manifest_same_start_overlap() {
    let err = order_manifest_ops(vec![op(3, Some(3), None, Some(true)), op(3, Some(3), Some("58"), None)])
        .unwrap_err();
    assert!(err.contains("overlapping manifest operations"));
}

#[test]
fn bug_probe_manifest_both_delete_and_hex() {
    let err = run("a\nb\n", vec![op(1, Some(1), Some("58"), Some(true))], false).unwrap_err();
    assert!(err.contains("Cannot both delete and insert"));
}

#[test]
fn bug_probe_manifest_context_wrong_hash_fails() {
    let lines = split_lines_exec("a\nb\nc\nd\ne\nf\ng\nh\n");
    let ops = order_manifest_ops(vec![op(3, Some(3), Some("4e4557"), None)]).unwrap();
    assert!(check_manifest_context(&lines, &ops, "0000000000000000").unwrap_err().contains("context mismatch"));
}

#[test]
fn manifest_line_numbers_never_shift() {
    // Every operation names lines of the file as it was read, whatever the
    // operations below or above it insert or remove.
    let ops = vec![
        op(2, Some(2), None, Some(true)),
        op(5, Some(5), Some("580a590a5a"), None),
        op(8, Some(8), Some("57"), None),
    ];
    let (text, removed, inserted) = run("a\nb\nc\nd\ne\nf\ng\nh\n", ops, false).unwrap();
    assert_eq!(text, "a\nc\nd\nX\nY\nZ\nf\ng\nW\n");
    assert_eq!(removed, 3);
    assert_eq!(inserted, 4);
}
