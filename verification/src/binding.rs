//! The editing entry points of the Python module: a single edit and a batch
//! manifest over a file's lines. They splice as the command line does, but
//! under rules and messages of their own: a range error always names the
//! bounds, the context hash is checked after the range and without a form
//! check, an indentation failure has one fixed message, and a dry run
//! previews the whole file.
use vstd::prelude::*;
use crate::cli::opt_text;
use crate::config::{upper_equals, upper_equals_exec, DalLevel};
use crate::context::{context_hash, mismatch_message, verify_context};
use crate::hex::{hex_decode, spec_hex_decode};
use crate::indent::{
    auto_indent_content, expected_fits,
    indent_fits_at, needs_indent_fix, opt_view, spec_auto_indent, spec_needs_fix, spec_validate,
    validate_indentation,
};
use crate::manifest::{strictly_bottom_up, ManifestOp};
use crate::lines::{join_nl, join_nl_exec, split_lines, split_lines_exec, strip_line_end, strs};
use crate::splice::{bounds_message, final_content, range_error, removed_count, splice_lines, spliced};
use crate::num::{decimal, push_decimal};
use crate::text::{chars_of, copy_str, push_str};

verus! {

// ---------------------------------------------------------------------------
// A single edit
// ---------------------------------------------------------------------------

/// The message of an edit refused for its indentation.
pub open spec fn edit_indent_message() -> Seq<char> {
    "indentation validation failed: replacement content indent does not match surrounding context"@
}

/// One row of a dry-run preview: a line inside the range is shown removed,
/// followed by the whole new content when there is any; a line outside it is
/// shown as context.
pub open spec fn preview_row(line: Seq<char>, in_range: bool, content: Seq<char>) -> Seq<char> {
    if in_range {
        if content.len() == 0 {
            "- "@ + line
        } else {
            "- "@ + line + "\n+ "@ + content
        }
    } else {
        "  "@ + line
    }
}

/// The dry-run preview of an edit: one row per line of the file (its line
/// ending removed), joined with newlines.
pub open spec fn edit_preview(ls: Seq<Seq<char>>, start: nat, end: nat, content: Seq<char>) -> Seq<char> {
    join_nl(
        Seq::new(
            ls.len(),
            |i: int| preview_row(strip_line_end(ls[i]), start <= i + 1 <= end, content),
        ),
    )
}

/// An edit's range is refused: it must satisfy `1 <= start <= end`, and
/// lie in the file or, for an insertion at the end, be `start == end` one
/// past the last line.
pub open spec fn edit_range_refused(start: nat, end: nat, n: nat) -> bool {
    start > end || range_error(start, end, n) is Some
}

/// What an edit comes to.
pub enum EditView {
    /// Refused with this message.
    Refused(Seq<char>),
    /// Done: lines removed and inserted, the file's lines afterwards, and the
    /// preview of a dry run.
    Done { removed: nat, inserted: nat, result: Seq<Seq<char>>, preview: Option<Seq<char>> },
}

/// An edit of the lines `start..=end` with `content`: refused when the range
/// is out of bounds, when the context hash of the range does not begin with
/// the expected value, or (outside a dry run and unless forced) when the new
/// lines are indented less than their surroundings; otherwise the content,
/// re-indented when asked and needed, replaces the range.
pub open spec fn spec_edit(
    ls: Seq<Seq<char>>,
    start: nat,
    end: nat,
    content: Seq<char>,
    auto_indent: bool,
    force_indent: bool,
    ctx: Option<Seq<char>>,
    dry_run: bool,
) -> EditView {
    let n = ls.len();
    if edit_range_refused(start, end, n) {
        EditView::Refused(bounds_message(start, end, n))
    } else if ctx matches Some(e) && context_hash(ls, start as int, end as int).take(16) != e {
        EditView::Refused(mismatch_message(start))
    } else {
        let fc = final_content(ls, start, content, auto_indent);
        let new = split_lines(fc);
        if !force_indent && !dry_run && new.len() > 0 && !spec_validate(ls, start as int, new).0 {
            EditView::Refused(edit_indent_message())
        } else {
            EditView::Done {
                removed: removed_count(start, end, n),
                inserted: new.len(),
                result: spliced(ls, start, end, new),
                preview: if dry_run {
                    Some(edit_preview(ls, start, end, fc))
                } else {
                    None
                },
            }
        }
    }
}

/// The inputs on which an edit runs without an arithmetic overflow: the
/// line count leaves room for the context window, the range's end fits in a
/// `usize`, and, for content, the expected indentation can be represented.
pub open spec fn edit_fits(
    ls: Seq<Seq<char>>,
    start: nat,
    end: nat,
    content: Seq<char>,
    auto_indent: bool,
    force_indent: bool,
    dry_run: bool,
) -> bool {
    &&& ls.len() + 4 <= usize::MAX
    &&& end < usize::MAX
    &&& (!edit_range_refused(start, end, ls.len()) && content.len() > 0) ==> {
        &&& (auto_indent || (!force_indent && !dry_run)) ==> expected_fits(ls, start as int)
    }
}

/// Whether an edit stays within the machine's limits (`edit_fits`); the
/// tool stops, as on an overflow, where it does not.
pub fn edit_within_limits(
    lines: &[String],
    start: usize,
    end: usize,
    content: &str,
    auto_indent: bool,
    force_indent: bool,
    dry_run: bool,
) -> (b: bool)
    ensures
        b == edit_fits(strs(lines@), start as nat, end as nat, content@, auto_indent, force_indent, dry_run),
{
    let n = lines.len();
    if n > usize::MAX - 4 || end == usize::MAX {
        return false;
    }
    let range_ok = start <= end && (!(start < 1 || end > n || start > end + 1) || (start == n + 1 && (
    start == end + 1 || start == end)));
    if !range_ok || chars_of(content).len() == 0 {
        return true;
    }
    if auto_indent || (!force_indent && !dry_run) {
        if !indent_fits_at(lines, start) {
            return false;
        }
    }
    true
}

/// A finished edit.
#[derive(Debug)]
pub struct EditOutcome {
    /// Number of existing lines replaced.
    pub lines_removed: usize,
    /// Number of new lines.
    pub lines_inserted: usize,
    /// The file's lines after the edit, each keeping its `'\n'`.
    pub result_lines: Vec<String>,
    /// The preview, for a dry run.
    pub diff_preview: Option<String>,
}

/// The view of an edit's result.
pub open spec fn edit_view(r: Result<EditOutcome, String>) -> EditView {
    match r {
        Ok(o) => EditView::Done {
            removed: o.lines_removed as nat,
            inserted: o.lines_inserted as nat,
            result: strs(o.result_lines@),
            preview: match o.diff_preview {
                Some(p) => Some(p@),
                None => None,
            },
        },
        Err(m) => EditView::Refused(m@),
    }
}

/// The row of the preview for one line.
fn preview_row_exec(line: &str, in_range: bool, content: &str) -> (r: Vec<char>)
    ensures
        r@ == preview_row(strip_line_end(line@), in_range, content@),
{
    let v = chars_of(line);
    let mut n = v.len();
    if n > 0 && v[n - 1] == '\n' {
        n = n - 1;
        if n > 0 && v[n - 1] == '\r' {
            n = n - 1;
        }
    }
    let mut row: Vec<char> = Vec::new();
    if in_range {
        row.push('-');
    } else {
        row.push(' ');
    }
    row.push(' ');
    let ghost head = row@;
    let mut j: usize = 0;
    while j < n
        invariant
            j <= n <= v@.len(),
            row@ == head + v@.take(j as int),
        decreases n - j,
    {
        row.push(v[j]);
        proof {
            assert(v@.take(j + 1) == v@.take(j as int).push(v@[j as int]));
        }
        j = j + 1;
    }
    let ghost body = row@;
    let c = chars_of(content);
    if in_range && c.len() > 0 {
        row.push('\n');
        row.push('+');
        row.push(' ');
        let ghost mid = row@;
        let mut k: usize = 0;
        while k < c.len()
            invariant
                k <= c@.len(),
                row@ == mid + c@.take(k as int),
            decreases c.len() - k,
        {
            row.push(c[k]);
            proof {
                assert(c@.take(k + 1) == c@.take(k as int).push(c@[k as int]));
            }
            k = k + 1;
        }
        proof {
            assert(c@.take(c@.len() as int) == c@);
        }
    }
    proof {
        reveal_strlit("- ");
        reveal_strlit("\n+ ");
        reveal_strlit("  ");
        assert(v@ == line@);
        assert(v@.take(n as int) =~= strip_line_end(line@));
        if in_range {
            if content@.len() == 0 {
                assert(row@ =~= "- "@ + strip_line_end(line@));
            } else {
                assert(row@ =~= "- "@ + strip_line_end(line@) + "\n+ "@ + content@);
            }
        } else {
            assert(row@ =~= "  "@ + strip_line_end(line@));
        }
    }
    row
}

/// The dry-run preview of an edit.
fn edit_preview_exec(lines: &[String], start: usize, end: usize, content: &str) -> (r: String)
    requires
        lines@.len() < usize::MAX,
    ensures
        r@ == edit_preview(strs(lines@), start as nat, end as nat, content@),
{
    let ghost ls = strs(lines@);
    let ghost rows = Seq::new(
        ls.len(),
        |i: int| preview_row(strip_line_end(ls[i]), start <= i + 1 <= end, content@),
    );
    let mut out: Vec<Vec<char>> = Vec::new();
    let mut i: usize = 0;
    while i < lines.len()
        invariant
            i <= lines@.len() < usize::MAX,
            ls == strs(lines@),
            rows.len() == ls.len(),
            rows == Seq::new(
                ls.len(),
                |i: int| preview_row(strip_line_end(ls[i]), start <= i + 1 <= end, content@),
            ),
            out@.map_values(|l: Vec<char>| l@) == rows.take(i as int),
        decreases lines.len() - i,
    {
        let ln = i + 1;
        let row = preview_row_exec(lines[i].as_str(), ln >= start && ln <= end, content);
        let ghost before = out@;
        out.push(row);
        proof {
            assert(ls[i as int] == lines@[i as int]@);
            assert(rows[i as int] == row@);
            assert(out@.map_values(|l: Vec<char>| l@) =~= before.map_values(|l: Vec<char>| l@).push(row@));
            assert(rows.take(i + 1) =~= rows.take(i as int).push(rows[i as int]));
        }
        i = i + 1;
    }
    proof {
        assert(rows.take(lines@.len() as int) == rows);
    }
    join_nl_exec(&out)
}

/// Edits the lines `start..=end` (1-based, inclusive) of a file with
/// `content`: the range check, the optional context check, the optional
/// re-indentation, the indentation check (skipped when forced, in a dry run,
/// or for a deletion), the splice, and the preview of a dry run.
pub fn edit_lines(
    lines: &[String],
    start: usize,
    end: usize,
    content: &str,
    auto_indent: bool,
    force_indent: bool,
    context_hash: Option<&str>,
    dry_run: bool,
) -> (r: Result<EditOutcome, String>)
    requires
        edit_fits(strs(lines@), start as nat, end as nat, content@, auto_indent, force_indent, dry_run),
    ensures
        edit_view(r) == spec_edit(
            strs(lines@),
            start as nat,
            end as nat,
            content@,
            auto_indent,
            force_indent,
            match context_hash {
                Some(e) => Some(e@),
                None => None,
            },
            dry_run,
        ),
{
    let ghost ls = strs(lines@);
    let n = lines.len();
    if start > end || start < 1 || end > n || start > end + 1 {
        if start > end || !(start == n + 1 && (start == end + 1 || start == end)) {
            let mut m = copy_str("line range ");
            push_decimal(&mut m, start as u64);
            push_str(&mut m, "-");
            push_decimal(&mut m, end as u64);
            push_str(&mut m, " out of bounds (file has ");
            push_decimal(&mut m, n as u64);
            push_str(&mut m, " lines)");
            return Err(m);
        }
    }
    match context_hash {
        Some(expected) => {
            match verify_context(lines, start, end, expected) {
                Err(m) => {
                    return Err(m);
                },
                Ok(_) => {},
            }
        },
        None => {},
    }
    let s = start - 1;
    let removed: usize = if s < n {
        let ae = if end <= n {
            end
        } else {
            n
        };
        ae - s
    } else {
        0
    };
    let has_content = chars_of(content).len() > 0;
    let processed: String = if has_content && auto_indent && needs_indent_fix(lines, start, end, content) {
        auto_indent_content(lines, start, end, content)
    } else {
        copy_str(content)
    };
    assert(processed@ == final_content(ls, start as nat, content@, auto_indent));
    let new_lines = split_lines_exec(processed.as_str());
    if !force_indent && !dry_run && new_lines.len() > 0 {
        proof {
            if content@.len() == 0 {
                assert(processed@ == content@);
                assert(split_lines(processed@).len() == 0);
            }
        }
        let (valid, _warning, _suggested) = validate_indentation(lines, start, end, &new_lines);
        if !valid {
            return Err(copy_str(
                "indentation validation failed: replacement content indent does not match surrounding context",
            ));
        }
    }
    let inserted = new_lines.len();
    let result_lines = splice_lines(lines, start, end, &new_lines);
    let diff_preview = if dry_run {
        Some(edit_preview_exec(lines, start, end, processed.as_str()))
    } else {
        None
    };
    Ok(EditOutcome { lines_removed: removed, lines_inserted: inserted, result_lines, diff_preview })
}

// ---------------------------------------------------------------------------
// A batch manifest
// ---------------------------------------------------------------------------

/// The first decoding error among the operations' hex contents, in the
/// order given.
pub open spec fn hex_failure(ops: Seq<ManifestOp>) -> Option<Seq<char>>
    decreases ops.len(),
{
    if ops.len() == 0 {
        None
    } else {
        match hex_failure(ops.drop_last()) {
            Some(m) => Some(m),
            None => match ops.last().hex {
                Some(h) => match spec_hex_decode(h@) {
                    Err(e) => Some(e),
                    Ok(_) => None,
                },
                None => None,
            },
        }
    }
}

/// Decodes every operation's hex content up front, before the file is read:
/// the first failure refuses the batch with the decoder's message.
pub fn check_batch_hex(ops: &Vec<ManifestOp>) -> (r: Result<(), String>)
    ensures
        match r {
            Ok(_) => hex_failure(ops@) is None,
            Err(m) => hex_failure(ops@) == Some(m@),
        },
{
    let mut i: usize = 0;
    while i < ops.len()
        invariant
            i <= ops@.len(),
            hex_failure(ops@.take(i as int)) is None,
        decreases ops.len() - i,
    {
        proof {
            assert(ops@.take(i + 1).drop_last() == ops@.take(i as int));
            assert(ops@.take(i + 1).last() == ops@[i as int]);
        }
        match &ops[i].hex {
            Some(h) => {
                match hex_decode(h.as_str()) {
                    Err(e) => {
                        proof {
                            lemma_hex_failure_stays(ops@, i + 1);
                        }
                        return Err(e);
                    },
                    Ok(_) => {},
                }
            },
            None => {},
        }
        i = i + 1;
    }
    assert(ops@.take(ops@.len() as int) == ops@);
    Ok(())
}

/// Once an operation fails to decode, the batch's first failure is fixed.
proof fn lemma_hex_failure_stays(ops: Seq<ManifestOp>, k: int)
    requires
        0 <= k <= ops.len(),
        hex_failure(ops.take(k)) is Some,
    ensures
        hex_failure(ops) == hex_failure(ops.take(k)),
    decreases ops.len() - k,
{
    if k < ops.len() {
        assert(ops.take(k + 1).drop_last() == ops.take(k));
        lemma_hex_failure_stays(ops, k + 1);
    } else {
        assert(ops.take(k) == ops);
    }
}

/// The message for an operation that both deletes and inserts.
pub open spec fn batch_both_message() -> Seq<char> {
    "Cannot both delete and insert in the same operation"@
}

/// The message for an operation refused on indentation.
pub open spec fn batch_indent_message(start: nat, warning: Option<Seq<char>>) -> Seq<char> {
    "indentation validation failed at line "@ + decimal(start) + ": "@ + match warning {
        Some(w) => w,
        None => Seq::<char>::empty(),
    }
}

/// The state of a batch: the lines so far and the totals.
pub struct BatchState {
    pub lines: Seq<Seq<char>>,
    pub removed: nat,
    pub inserted: nat,
}

/// The content of an inserting operation after the optional re-indentation.
pub open spec fn batch_content(ls: Seq<Seq<char>>, start: nat, c: Seq<char>, auto_indent: bool) -> Seq<char> {
    if auto_indent && spec_needs_fix(ls, start as int, c) {
        spec_auto_indent(ls, start as int, c)
    } else {
        c
    }
}

/// One operation of a batch: refused when its range is out of bounds for the
/// current lines, or when it both deletes and inserts; a delete removes the
/// range; an insertion replaces it with the decoded content, re-indented
/// when asked and needed, refused (outside a dry run and unless forced) when
/// indented less than its surroundings; an operation that does neither is
/// passed over.
#[verifier::opaque]
pub open spec fn spec_batch_op(
    st: BatchState,
    op: ManifestOp,
    auto_indent: bool,
    force_indent: bool,
    ctx: Option<Seq<char>>,
    dry_run: bool,
) -> Result<BatchState, Seq<char>> {
    let n = st.lines.len();
    let start = op.start as nat;
    let end = op.end_line();
    if range_error(start, end, n) is Some {
        Err(bounds_message(start, end, n))
    } else if op.delete == Some(true) && op.hex is Some {
        Err(batch_both_message())
    } else if op.delete == Some(true) {
        Ok(
            BatchState {
                lines: spliced(st.lines, start, end, seq![]),
                removed: st.removed + removed_count(start, end, n),
                inserted: st.inserted,
            },
        )
    } else {
        match op.hex {
            None => Ok(st),
            Some(h) => if ctx matches Some(e) && context_hash(st.lines, start as int, end as int).take(16) != e {
                Err(mismatch_message(start))
            } else {
                match spec_hex_decode(h@) {
                Err(e) => Err(e),
                Ok(c) => {
                    let new = split_lines(batch_content(st.lines, start, c, auto_indent));
                    let v = spec_validate(st.lines, start as int, new);
                    if !force_indent && !dry_run && !v.0 {
                        Err(batch_indent_message(start, v.1))
                    } else {
                        Ok(
                            BatchState {
                                lines: spliced(st.lines, start, end, new),
                                removed: st.removed + removed_count(start, end, n),
                                inserted: st.inserted + new.len(),
                            },
                        )
                    }
                },
            }
            },
        }
    }
}

/// The operations applied in order, stopping at the first refusal.
pub open spec fn spec_batch_ops(
    st: BatchState,
    ops: Seq<ManifestOp>,
    auto_indent: bool,
    force_indent: bool,
    ctx: Option<Seq<char>>,
    dry_run: bool,
) -> Result<BatchState, Seq<char>>
    decreases ops.len(),
{
    if ops.len() == 0 {
        Ok(st)
    } else {
        match spec_batch_ops(st, ops.drop_last(), auto_indent, force_indent, ctx, dry_run) {
            Err(e) => Err(e),
            Ok(s2) => spec_batch_op(s2, ops.last(), auto_indent, force_indent, ctx, dry_run),
        }
    }
}

/// The starting state for a file's lines.
pub open spec fn batch_start(ls: Seq<Seq<char>>) -> BatchState {
    BatchState { lines: ls, removed: 0, inserted: 0 }
}

/// A batch of operations, already in bottom-up order: each applied in
/// turn, the context hash checked before each inserting operation against
/// the lines at that point.
pub open spec fn spec_batch(
    ls: Seq<Seq<char>>,
    ops: Seq<ManifestOp>,
    auto_indent: bool,
    force_indent: bool,
    ctx: Option<Seq<char>>,
    dry_run: bool,
) -> Result<BatchState, Seq<char>> {
    spec_batch_ops(batch_start(ls), ops, auto_indent, force_indent, ctx, dry_run)
}

/// One operation runs without an arithmetic overflow: its range and the
/// totals fit in a `usize`, and, for an insertion, the expected indentation
/// can be represented.
#[verifier::opaque]
pub open spec fn batch_op_fits(
    st: BatchState,
    op: ManifestOp,
    auto_indent: bool,
    force_indent: bool,
    ctx: Option<Seq<char>>,
    dry_run: bool,
) -> bool {
    let n = st.lines.len();
    let start = op.start as nat;
    let end = op.end_line();
    &&& n < usize::MAX
    &&& end < usize::MAX
    &&& range_error(start, end, n) is None ==> {
        &&& st.removed + removed_count(start, end, n) <= usize::MAX
        &&& op.delete != Some(true) ==> match op.hex {
            Some(h) => (ctx is Some ==> end + 3 <= usize::MAX) && (!(ctx matches Some(e) && context_hash(
                st.lines,
                start as int,
                end as int,
            ).take(16) != e) ==> match spec_hex_decode(h@) {
                Ok(c) => {
                    let new = split_lines(batch_content(st.lines, start, c, auto_indent));
                    &&& (auto_indent || (!force_indent && !dry_run)) ==> expected_fits(st.lines, start as int)
                    &&& st.inserted + new.len() <= usize::MAX
                },
                Err(_) => true,
            }),
            None => true,
        }
    }
}

/// Every operation that is reached runs without an arithmetic overflow.
pub open spec fn batch_ops_fit(
    st: BatchState,
    ops: Seq<ManifestOp>,
    auto_indent: bool,
    force_indent: bool,
    ctx: Option<Seq<char>>,
    dry_run: bool,
) -> bool
    decreases ops.len(),
{
    if ops.len() == 0 {
        true
    } else {
        &&& batch_ops_fit(st, ops.drop_last(), auto_indent, force_indent, ctx, dry_run)
        &&& match spec_batch_ops(st, ops.drop_last(), auto_indent, force_indent, ctx, dry_run) {
            Ok(s2) => batch_op_fits(s2, ops.last(), auto_indent, force_indent, ctx, dry_run),
            Err(_) => true,
        }
    }
}

/// A batch runs without an arithmetic overflow: every operation reached
/// does.
pub open spec fn batch_fits(
    ls: Seq<Seq<char>>,
    ops: Seq<ManifestOp>,
    auto_indent: bool,
    force_indent: bool,
    ctx: Option<Seq<char>>,
    dry_run: bool,
) -> bool {
    batch_ops_fit(batch_start(ls), ops, auto_indent, force_indent, ctx, dry_run)
}

/// The result of a batch.
#[derive(Debug)]
pub struct BatchOutcome {
    /// The file's lines after the operations.
    pub lines: Vec<String>,
    /// Total number of lines removed.
    pub lines_removed: usize,
    /// Total number of lines inserted.
    pub lines_inserted: usize,
}

/// The view of a batch outcome.
pub open spec fn batch_state(o: BatchOutcome) -> BatchState {
    BatchState { lines: strs(o.lines@), removed: o.lines_removed as nat, inserted: o.lines_inserted as nat }
}

/// The view of a batch result.
pub open spec fn batch_view(r: Result<BatchOutcome, String>) -> Result<BatchState, Seq<char>> {
    match r {
        Ok(o) => Ok(batch_state(o)),
        Err(m) => Err(m@),
    }
}

/// Applies one operation of a batch; `None` when it would exceed the
/// machine's limits (see `batch_op_fits`).
#[verifier::rlimit(60)]
#[verifier::spinoff_prover]
fn batch_op(
    st: BatchOutcome,
    op: &ManifestOp,
    auto_indent: bool,
    force_indent: bool,
    context_hash: Option<&str>,
    dry_run: bool,
) -> (r: Option<Result<BatchOutcome, String>>)
    ensures
        r is Some <==> batch_op_fits(batch_state(st), *op, auto_indent, force_indent, opt_text(context_hash), dry_run),
        r matches Some(x) ==> batch_view(x) == spec_batch_op(
            batch_state(st),
            *op,
            auto_indent,
            force_indent,
            opt_text(context_hash),
            dry_run,
        ),
{
    reveal(spec_batch_op);
    reveal(batch_op_fits);
    let n = st.lines.len();
    let start = op.start;
    let end = match op.end {
        Some(e) => e,
        None => op.start,
    };
    if n == usize::MAX || end == usize::MAX {
        return None;
    }
    if start < 1 || end > n || start > end + 1 {
        if !(start == n + 1 && (start == end + 1 || start == end)) {
            let mut m = copy_str("line range ");
            push_decimal(&mut m, start as u64);
            push_str(&mut m, "-");
            push_decimal(&mut m, end as u64);
            push_str(&mut m, " out of bounds (file has ");
            push_decimal(&mut m, n as u64);
            push_str(&mut m, " lines)");
            return Some(Err(m));
        }
    }
    let s = start - 1;
    let ae = if end <= n {
        end
    } else {
        n
    };
    if st.lines_removed > usize::MAX - (ae - s) {
        return None;
    }
    let deleting = match op.delete {
        Some(d) => d,
        None => false,
    };
    if deleting && op.hex.is_some() {
        return Some(Err(copy_str("Cannot both delete and insert in the same operation")));
    }
    let mut st = st;
    if deleting {
        let empty: Vec<String> = Vec::new();
        let after = splice_lines(&st.lines, start, end, &empty);
        proof {
            assert(strs(empty@) =~= Seq::<Seq<char>>::empty());
        }
        st.lines = after;
        st.lines_removed = st.lines_removed + (ae - s);
        return Some(Ok(st));
    }
    match &op.hex {
        None => Some(Ok(st)),
        Some(h) => {
            match context_hash {
                Some(expected) => {
                    if end > usize::MAX - 3 {
                        return None;
                    }
                    match verify_context(&st.lines, start, end, expected) {
                        Err(m) => {
                            return Some(Err(m));
                        },
                        Ok(_) => {},
                    }
                },
                None => {},
            }
            let decoded = match hex_decode(h.as_str()) {
                Err(e) => {
                    return Some(Err(e));
                },
                Ok(c) => c,
            };
            if (auto_indent || (!force_indent && !dry_run)) && !indent_fits_at(&st.lines, start) {
                return None;
            }
            let fix = auto_indent && needs_indent_fix(&st.lines, start, ae, decoded.as_str());
            let content = if fix {
                auto_indent_content(&st.lines, start, ae, decoded.as_str())
            } else {
                decoded
            };
            let new = split_lines_exec(content.as_str());
            if st.lines_inserted > usize::MAX - new.len() {
                return None;
            }
            if !force_indent && !dry_run {
                let (valid, warning, _) = validate_indentation(&st.lines, start, ae, &new);
                if !valid {
                    let mut m = copy_str("indentation validation failed at line ");
                    push_decimal(&mut m, start as u64);
                    push_str(&mut m, ": ");
                    match &warning {
                        Some(w) => push_str(&mut m, w.as_str()),
                        None => {},
                    }
                    proof {
                        assert(m@ =~= batch_indent_message(start as nat, opt_view(warning)));
                    }
                    return Some(Err(m));
                }
            }
            let after = splice_lines(&st.lines, start, end, &new);
            st.lines = after;
            st.lines_removed = st.lines_removed + (ae - s);
            st.lines_inserted = st.lines_inserted + new.len();
            Some(Ok(st))
        },
    }
}

proof fn lemma_batch_step(
    st: BatchState,
    ops: Seq<ManifestOp>,
    i: int,
    auto_indent: bool,
    force_indent: bool,
    ctx: Option<Seq<char>>,
    dry_run: bool,
)
    requires
        0 <= i < ops.len(),
    ensures
        spec_batch_ops(st, ops.take(i + 1), auto_indent, force_indent, ctx, dry_run) == match spec_batch_ops(
            st,
            ops.take(i),
            auto_indent,
            force_indent,
            ctx,
            dry_run,
        ) {
            Err(e) => Err(e),
            Ok(s2) => spec_batch_op(s2, ops[i], auto_indent, force_indent, ctx, dry_run),
        },
        batch_ops_fit(st, ops.take(i + 1), auto_indent, force_indent, ctx, dry_run) == (batch_ops_fit(
            st,
            ops.take(i),
            auto_indent,
            force_indent,
            ctx,
            dry_run,
        ) && match spec_batch_ops(st, ops.take(i), auto_indent, force_indent, ctx, dry_run) {
            Ok(s2) => batch_op_fits(s2, ops[i], auto_indent, force_indent, ctx, dry_run),
            Err(_) => true,
        }),
{
    assert(ops.take(i + 1).drop_last() == ops.take(i));
    assert(ops.take(i + 1).last() == ops[i]);
}

proof fn lemma_batch_fit_prefix(
    st: BatchState,
    ops: Seq<ManifestOp>,
    k: int,
    auto_indent: bool,
    force_indent: bool,
    ctx: Option<Seq<char>>,
    dry_run: bool,
)
    requires
        0 <= k <= ops.len(),
        batch_ops_fit(st, ops, auto_indent, force_indent, ctx, dry_run),
    ensures
        batch_ops_fit(st, ops.take(k), auto_indent, force_indent, ctx, dry_run),
    decreases ops.len() - k,
{
    if k < ops.len() {
        lemma_batch_fit_prefix(st, ops, k + 1, auto_indent, force_indent, ctx, dry_run);
        lemma_batch_step(st, ops, k, auto_indent, force_indent, ctx, dry_run);
    } else {
        assert(ops.take(k) == ops);
    }
}

/// Once refused, the batch stays refused.
proof fn lemma_batch_refused(
    st: BatchState,
    ops: Seq<ManifestOp>,
    k: int,
    auto_indent: bool,
    force_indent: bool,
    ctx: Option<Seq<char>>,
    dry_run: bool,
)
    requires
        0 <= k <= ops.len(),
        spec_batch_ops(st, ops.take(k), auto_indent, force_indent, ctx, dry_run) is Err,
    ensures
        spec_batch_ops(st, ops, auto_indent, force_indent, ctx, dry_run) == spec_batch_ops(
            st,
            ops.take(k),
            auto_indent,
            force_indent,
            ctx,
            dry_run,
        ),
        batch_ops_fit(st, ops, auto_indent, force_indent, ctx, dry_run) == batch_ops_fit(
            st,
            ops.take(k),
            auto_indent,
            force_indent,
            ctx,
            dry_run,
        ),
    decreases ops.len() - k,
{
    if k < ops.len() {
        lemma_batch_step(st, ops, k, auto_indent, force_indent, ctx, dry_run);
        lemma_batch_refused(st, ops, k + 1, auto_indent, force_indent, ctx, dry_run);
    } else {
        assert(ops.take(k) == ops);
    }
}

/// Runs a batch of operations, already in bottom-up order (see
/// `order_manifest_ops`), over a file's lines: each operation in turn, the
/// optional context hash checked before each inserting one; `None`
/// when the batch would exceed the machine's limits (see `batch_fits`).
pub fn run_batch(
    lines: &[String],
    ops: &Vec<ManifestOp>,
    auto_indent: bool,
    force_indent: bool,
    context_hash: Option<&str>,
    dry_run: bool,
) -> (r: Option<Result<BatchOutcome, String>>)
    ensures
        r is Some <==> batch_fits(
            strs(lines@),
            ops@,
            auto_indent,
            force_indent,
            match context_hash {
                Some(e) => Some(e@),
                None => None,
            },
            dry_run,
        ),
        r matches Some(x) ==> batch_view(x) == spec_batch(
            strs(lines@),
            ops@,
            auto_indent,
            force_indent,
            match context_hash {
                Some(e) => Some(e@),
                None => None,
            },
            dry_run,
        ),
{
    let ghost st0 = batch_start(strs(lines@));
    let ghost ctx = match context_hash {
        Some(e) => Some(e@),
        None => None,
    };
    let mut copy: Vec<String> = Vec::new();
    let mut k: usize = 0;
    while k < lines.len()
        invariant
            k <= lines@.len(),
            strs(copy@) == strs(lines@).take(k as int),
        decreases lines.len() - k,
    {
        let ghost before = strs(copy@);
        copy.push(copy_str(lines[k].as_str()));
        proof {
            assert(strs(copy@) =~= before.push(lines@[k as int]@));
            assert(strs(lines@).take(k + 1) =~= strs(lines@).take(k as int).push(lines@[k as int]@));
        }
        k = k + 1;
    }
    assert(strs(lines@).take(lines@.len() as int) =~= strs(lines@));
    let mut st = BatchOutcome { lines: copy, lines_removed: 0, lines_inserted: 0 };
    proof {
        assert(batch_state(st) == st0);
        assert(ops@.take(0) =~= Seq::<ManifestOp>::empty());
    }
    let ghost whole = spec_batch(strs(lines@), ops@, auto_indent, force_indent, ctx, dry_run);
    let ghost fits = batch_fits(strs(lines@), ops@, auto_indent, force_indent, ctx, dry_run);
    assert(whole == spec_batch_ops(st0, ops@, auto_indent, force_indent, ctx, dry_run));
    assert(fits == batch_ops_fit(st0, ops@, auto_indent, force_indent, ctx, dry_run));
    let mut i: usize = 0;
    while i < ops.len()
        invariant
            i <= ops@.len(),
            st0 == batch_start(strs(lines@)),
            whole == spec_batch_ops(st0, ops@, auto_indent, force_indent, ctx, dry_run),
            whole == spec_batch(strs(lines@), ops@, auto_indent, force_indent, ctx, dry_run),
            fits == batch_ops_fit(st0, ops@, auto_indent, force_indent, ctx, dry_run),
            fits == batch_fits(strs(lines@), ops@, auto_indent, force_indent, ctx, dry_run),
            ctx == match context_hash {
                Some(e) => Some(e@),
                None => None,
            },
            batch_ops_fit(st0, ops@.take(i as int), auto_indent, force_indent, ctx, dry_run),
            spec_batch_ops(st0, ops@.take(i as int), auto_indent, force_indent, ctx, dry_run) == Ok::<
                BatchState,
                Seq<char>,
            >(batch_state(st)),
        decreases ops.len() - i,
    {
        proof {
            lemma_batch_step(st0, ops@, i as int, auto_indent, force_indent, ctx, dry_run);
        }
        match batch_op(st, &ops[i], auto_indent, force_indent, context_hash, dry_run) {
            None => {
                proof {
                    assert(!batch_ops_fit(st0, ops@.take(i + 1), auto_indent, force_indent, ctx, dry_run));
                    if batch_ops_fit(st0, ops@, auto_indent, force_indent, ctx, dry_run) {
                        lemma_batch_fit_prefix(st0, ops@, i + 1, auto_indent, force_indent, ctx, dry_run);
                    }
                }
                return None;
            },
            Some(Err(m)) => {
                proof {
                    assert(spec_batch_ops(st0, ops@.take(i + 1), auto_indent, force_indent, ctx, dry_run)
                        == Err::<BatchState, Seq<char>>(m@));
                    lemma_batch_refused(st0, ops@, i + 1, auto_indent, force_indent, ctx, dry_run);
                }
                return Some(Err(m));
            },
            Some(Ok(next)) => {
                st = next;
            },
        }
        i = i + 1;
    }
    assert(ops@.take(ops@.len() as int) == ops@);
    Some(Ok(st))
}

/// Runs a batch of operations, already in bottom-up order (see
/// `order_manifest_ops`), over a file's lines: each operation in turn, the
/// optional context hash checked before each inserting one.
pub fn apply_batch(
    lines: &[String],
    ops: &Vec<ManifestOp>,
    auto_indent: bool,
    force_indent: bool,
    context_hash: Option<&str>,
    dry_run: bool,
) -> (r: Result<BatchOutcome, String>)
    requires
        batch_fits(
            strs(lines@),
            ops@,
            auto_indent,
            force_indent,
            match context_hash {
                Some(e) => Some(e@),
                None => None,
            },
            dry_run,
        ),
    ensures
        batch_view(r) == spec_batch(
            strs(lines@),
            ops@,
            auto_indent,
            force_indent,
            match context_hash {
                Some(e) => Some(e@),
                None => None,
            },
            dry_run,
        ),
{
    match run_batch(lines, ops, auto_indent, force_indent, context_hash, dry_run) {
        Some(r) => r,
        None => {
            assert(false);
            Err(String::new())
        },
    }
}

// ---------------------------------------------------------------------------
// Naming a DAL level
// ---------------------------------------------------------------------------

/// The message for a name that is no DAL level.
pub open spec fn dal_name_message() -> Seq<char> {
    "Invalid DAL level. Use: BASELINE, ENHANCED, MAXIMUM"@
}

/// The level a name gives once upper-cased: `BASELINE`, `ENHANCED` or
/// `MAXIMUM` (surrounding whitespace counts); anything else is refused.
pub open spec fn spec_dal_from_name(name: Seq<char>) -> Result<DalLevel, Seq<char>> {
    if upper_equals(name, seq!['B', 'A', 'S', 'E', 'L', 'I', 'N', 'E']) {
        Ok(DalLevel::Baseline)
    } else if upper_equals(name, seq!['E', 'N', 'H', 'A', 'N', 'C', 'E', 'D']) {
        Ok(DalLevel::Enhanced)
    } else if upper_equals(name, seq!['M', 'A', 'X', 'I', 'M', 'U', 'M']) {
        Ok(DalLevel::Maximum)
    } else {
        Err(dal_name_message())
    }
}

/// Reads a DAL level from its name, in any letter case.
pub fn dal_level_from_name(name: &str) -> (r: Result<DalLevel, String>)
    ensures
        match r {
            Ok(l) => spec_dal_from_name(name@) == Ok::<DalLevel, Seq<char>>(l),
            Err(m) => spec_dal_from_name(name@) == Err::<DalLevel, Seq<char>>(m@),
        },
{
    let v = chars_of(name);
    let baseline = vec!['B', 'A', 'S', 'E', 'L', 'I', 'N', 'E'];
    let enhanced = vec!['E', 'N', 'H', 'A', 'N', 'C', 'E', 'D'];
    let maximum = vec!['M', 'A', 'X', 'I', 'M', 'U', 'M'];
    assert(baseline@ == seq!['B', 'A', 'S', 'E', 'L', 'I', 'N', 'E']);
    assert(enhanced@ == seq!['E', 'N', 'H', 'A', 'N', 'C', 'E', 'D']);
    assert(maximum@ == seq!['M', 'A', 'X', 'I', 'M', 'U', 'M']);
    if upper_equals_exec(&v, &baseline) {
        Ok(DalLevel::Baseline)
    } else if upper_equals_exec(&v, &enhanced) {
        Ok(DalLevel::Enhanced)
    } else if upper_equals_exec(&v, &maximum) {
        Ok(DalLevel::Maximum)
    } else {
        Err(copy_str("Invalid DAL level. Use: BASELINE, ENHANCED, MAXIMUM"))
    }
}

// ---------------------------------------------------------------------------
// Laws
// ---------------------------------------------------------------------------

/// An edit that goes ahead changes the line count by the lines inserted
/// minus the lines removed, and keeps the lines before its start.
pub proof fn law_edit_line_count(
    ls: Seq<Seq<char>>,
    start: nat,
    end: nat,
    content: Seq<char>,
    auto_indent: bool,
    force_indent: bool,
    ctx: Option<Seq<char>>,
    dry_run: bool,
)
    requires
        spec_edit(ls, start, end, content, auto_indent, force_indent, ctx, dry_run) is Done,
    ensures
        ({
            let r = spec_edit(ls, start, end, content, auto_indent, force_indent, ctx, dry_run);
            &&& r->Done_result.len() + r->Done_removed == ls.len() + r->Done_inserted
            &&& r->Done_result.take(start - 1) == ls.take(start - 1)
        }),
{
    let fc = final_content(ls, start, content, auto_indent);
    crate::splice::law_splice_shape(ls, start, end, split_lines(fc));
}

/// Deleting is editing with empty content: the range's lines are removed,
/// nothing is inserted, and the lines before and after it stay in order.
pub proof fn law_edit_delete(
    ls: Seq<Seq<char>>,
    start: nat,
    end: nat,
    auto_indent: bool,
    force_indent: bool,
    ctx: Option<Seq<char>>,
    dry_run: bool,
)
    requires
        spec_edit(ls, start, end, seq![], auto_indent, force_indent, ctx, dry_run) is Done,
    ensures
        ({
            let r = spec_edit(ls, start, end, seq![], auto_indent, force_indent, ctx, dry_run);
            &&& r->Done_inserted == 0
            &&& r->Done_removed == removed_count(start, end, ls.len())
            &&& r->Done_result == spliced(ls, start, end, seq![])
        }),
{
    assert(split_lines(Seq::<char>::empty()) =~= Seq::<Seq<char>>::empty());
}

/// Line accounting for a batch: the final line count is the starting count
/// plus the lines inserted minus the lines removed.
pub proof fn law_batch_line_count(
    st: BatchState,
    ops: Seq<ManifestOp>,
    auto_indent: bool,
    force_indent: bool,
    ctx: Option<Seq<char>>,
    dry_run: bool,
)
    requires
        spec_batch_ops(st, ops, auto_indent, force_indent, ctx, dry_run) is Ok,
    ensures
        ({
            let r = spec_batch_ops(st, ops, auto_indent, force_indent, ctx, dry_run)->Ok_0;
            r.lines.len() + r.removed + st.inserted == st.lines.len() + st.removed + r.inserted
        }),
    decreases ops.len(),
{
    if ops.len() > 0 {
        let init = ops.drop_last();
        law_batch_line_count(st, init, auto_indent, force_indent, ctx, dry_run);
        let m = spec_batch_ops(st, init, auto_indent, force_indent, ctx, dry_run)->Ok_0;
        let op = ops.last();
        reveal(spec_batch_op);
        let start = op.start as nat;
        let end = op.end_line();
        crate::splice::law_splice_shape(m.lines, start, end, seq![]);
        match op.hex {
            Some(h) => match spec_hex_decode(h@) {
                Ok(c) => {
                    let new = split_lines(batch_content(m.lines, start, c, auto_indent));
                    crate::splice::law_splice_shape(m.lines, start, end, new);
                },
                Err(_) => {},
            },
            None => {},
        }
    }
}

/// One operation of a batch leaves the lines above its start as they were.
proof fn lemma_batch_op_keeps_lines_above(
    st: BatchState,
    op: ManifestOp,
    auto_indent: bool,
    force_indent: bool,
    ctx: Option<Seq<char>>,
    dry_run: bool,
)
    requires
        spec_batch_op(st, op, auto_indent, force_indent, ctx, dry_run) is Ok,
    ensures
        spec_batch_op(st, op, auto_indent, force_indent, ctx, dry_run)->Ok_0.lines.take(op.start - 1)
            == st.lines.take(op.start - 1),
        op.start >= 1,
        op.start - 1 <= st.lines.len(),
        op.start - 1 <= spec_batch_op(st, op, auto_indent, force_indent, ctx, dry_run)->Ok_0.lines.len(),
{
    reveal(spec_batch_op);
    let start = op.start as nat;
    let end = op.end_line();
    crate::splice::law_splice_shape(st.lines, start, end, seq![]);
    match op.hex {
        Some(h) => match spec_hex_decode(h@) {
            Ok(c) => {
                let new = split_lines(batch_content(st.lines, start, c, auto_indent));
                crate::splice::law_splice_shape(st.lines, start, end, new);
            },
            Err(_) => {},
        },
        None => {},
    }
}

/// A batch in bottom-up order never shifts the lines still to be edited:
/// after it has run, the lines above its last (lowest) operation's start are
/// those of the file as it was read.
pub proof fn law_batch_keeps_lines_above(
    st: BatchState,
    ops: Seq<ManifestOp>,
    auto_indent: bool,
    force_indent: bool,
    ctx: Option<Seq<char>>,
    dry_run: bool,
)
    requires
        ops.len() > 0,
        strictly_bottom_up(ops),
        spec_batch_ops(st, ops, auto_indent, force_indent, ctx, dry_run) is Ok,
    ensures
        spec_batch_ops(st, ops, auto_indent, force_indent, ctx, dry_run)->Ok_0.lines.take(ops.last().start - 1)
            == st.lines.take(ops.last().start - 1),
        ops.last().start - 1 <= st.lines.len(),
    decreases ops.len(),
{
    let init = ops.drop_last();
    let op = ops.last();
    let m = spec_batch_ops(st, init, auto_indent, force_indent, ctx, dry_run)->Ok_0;
    if init.len() == 0 {
        assert(m == st);
    }
    lemma_batch_op_keeps_lines_above(m, op, auto_indent, force_indent, ctx, dry_run);
    let j = op.start - 1;
    if init.len() > 0 {
        assert(strictly_bottom_up(init)) by {
            assert forall|a: int, b: int| 0 <= a < b < init.len() implies #[trigger] init[a].start > #[trigger] init[b].start by {
                assert(init[a] == ops[a] && init[b] == ops[b]);
            }
        }
        law_batch_keeps_lines_above(st, init, auto_indent, force_indent, ctx, dry_run);
        let prev = init.last();
        assert(prev == ops[ops.len() - 2]);
        assert(prev.start > op.start);
        lemma_batch_op_keeps_lines_above(
            spec_batch_ops(st, init.drop_last(), auto_indent, force_indent, ctx, dry_run)->Ok_0,
            prev,
            auto_indent,
            force_indent,
            ctx,
            dry_run,
        );
        let k = prev.start - 1;
        assert(m.lines.take(j) =~= m.lines.take(k).take(j));
        assert(st.lines.take(j) =~= st.lines.take(k).take(j));
    }
}

/// An edit that starts at line 0, beyond the line after the last, or after
/// its end line, is refused with the bounds message.
pub proof fn law_edit_out_of_range_refused(
    ls: Seq<Seq<char>>,
    start: nat,
    end: nat,
    content: Seq<char>,
    auto_indent: bool,
    force_indent: bool,
    ctx: Option<Seq<char>>,
    dry_run: bool,
)
    requires
        start == 0 || start > ls.len() + 1 || start > end,
    ensures
        spec_edit(ls, start, end, content, auto_indent, force_indent, ctx, dry_run) == EditView::Refused(
            bounds_message(start, end, ls.len()),
        ),
{
}

} // verus!
