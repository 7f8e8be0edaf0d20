use moesniper::diff::generate_preview;

fn make_lines(text: &str) -> Vec<String> {
    text.split_inclusive('\n').map(String::from).collect()
}

#[test]
fn test_generate_preview_simple() {
    let old = make_lines("line1\nline2\nline3\nline4\nline5\n");
    let new = vec!["new2\n".to_string()];

    let preview = generate_preview(&old, &new, 2, 2);

    assert!(preview.iter().any(|l| l.contains("--- original")));
    assert!(preview.iter().any(|l| l.contains("+++ modified")));
    assert!(preview.iter().any(|l| l.starts_with('-') && l.contains("line2")));
    assert!(preview.iter().any(|l| l.starts_with('+') && l.contains("new2")));
}

#[test]
fn preview_exact_lines() {
    let old = make_lines("a\nb\nc\nd\ne\nf\ng\nh\n");
    let new = vec!["X\n".to_string(), "Y\n".to_string()];
    let preview = generate_preview(&old, &new, 5, 5);
    let expected: Vec<String> = vec![
        "--- original (lines 5-5)",
        "+++ modified (2 lines)",
        "",
        " 3 | c",
        " 3 | d",
        " ...",
        "-5| e",
        "+5| X",
        "+6| Y",
        " ...",
        " 6 | f",
        " 6 | g",
        " 6 | h",
    ]
    .into_iter()
    .map(String::from)
    .collect();
    assert_eq!(preview, expected);
}

#[test]
fn preview_at_top_and_past_end() {
    let old = make_lines("one\ntwo\n");
    let preview = generate_preview(&old, &[], 1, 1);
    assert_eq!(
        preview,
        vec![
            "--- original (lines 1-1)".to_string(),
            "+++ modified (0 lines)".to_string(),
            String::new(),
            "-1| one".to_string(),
            " ...".to_string(),
            " 2 | two".to_string(),
        ]
    );
    let new = vec!["three".to_string()];
    let preview = generate_preview(&old, &new, 3, 2);
    assert_eq!(
        preview,
        vec![
            "--- original (lines 3-2)".to_string(),
            "+++ modified (1 lines)".to_string(),
            String::new(),
            " 1 | one".to_string(),
            " 1 | two".to_string(),
            " ...".to_string(),
            "+3| three".to_string(),
        ]
    );
}
