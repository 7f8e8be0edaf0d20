//! The splice operation: replace the 1-based inclusive line range
//! `start..=end` of a file's lines by new content, with range checking,
//! optional context verification, indentation checking and correction, and
//! a preview for dry runs.
use vstd::prelude::*;
use vstd::utf8::encode_utf8;
use crate::context::{context_hash, mismatch_message, verify_context};
use crate::diff::{generate_preview, spec_preview};
use crate::hex::{is_hex, is_hex_exec, utf8_len};
use crate::indent::{
    auto_indent_content, expected_fits, indent_fits_at, needs_indent_fix, spec_auto_indent,
    spec_needs_fix, spec_validate, validate_indentation, opt_view,
};
use crate::lines::{split_lines, split_lines_exec, strs};
use crate::num::{decimal, push_decimal, push_decimal_u128};
use crate::text::{chars_of, copy_str, push_str};

verus! {

// ---------------------------------------------------------------------------
// Range checking
// ---------------------------------------------------------------------------

/// The message for a range whose start lies more than one past its end.
pub open spec fn inverted_message(start: nat, end: nat) -> Seq<char> {
    "inverted range "@ + decimal(start) + "-"@ + decimal(end)
        + " is invalid (must satisfy start <= end + 1 to allow insertions at EOF)"@
}

/// The message for a range outside the file.
pub open spec fn bounds_message(start: nat, end: nat, n: nat) -> Seq<char> {
    "line range "@ + decimal(start) + "-"@ + decimal(end) + " out of bounds (file has "@ + decimal(n)
        + " lines)"@
}

/// Why the range `start..=end` is refused for a file of `n` lines, if it is.
/// A range is accepted when `1 <= start <= end + 1` and `end <= n`, and also
/// for an insertion at the end: `start == n + 1` with `end` equal to `n` or
/// to `n + 1`.
pub open spec fn range_error(start: nat, end: nat, n: nat) -> Option<Seq<char>> {
    if start < 1 || end > n || start > end + 1 {
        if start == n + 1 && (start == end + 1 || start == end) {
            None
        } else if start > end + 1 {
            Some(inverted_message(start, end))
        } else {
            Some(bounds_message(start, end, n))
        }
    } else {
        None
    }
}

/// Checks the range `start..=end` against a file of `n` lines.
pub fn check_range(start: usize, end: usize, n: usize) -> (r: Result<(), String>)
    requires
        end < usize::MAX,
        n < usize::MAX,
    ensures
        match r {
            Ok(_) => range_error(start as nat, end as nat, n as nat) is None,
            Err(m) => range_error(start as nat, end as nat, n as nat) == Some(m@),
        },
{
    if start < 1 || end > n || start > end + 1 {
        if start == n + 1 && (start == end + 1 || start == end) {
            Ok(())
        } else if start > end + 1 {
            let mut m = copy_str("inverted range ");
            push_decimal(&mut m, start as u64);
            push_str(&mut m, "-");
            push_decimal(&mut m, end as u64);
            push_str(&mut m, " is invalid (must satisfy start <= end + 1 to allow insertions at EOF)");
            Err(m)
        } else {
            let mut m = copy_str("line range ");
            push_decimal(&mut m, start as u64);
            push_str(&mut m, "-");
            push_decimal(&mut m, end as u64);
            push_str(&mut m, " out of bounds (file has ");
            push_decimal(&mut m, n as u64);
            push_str(&mut m, " lines)");
            Err(m)
        }
    } else {
        Ok(())
    }
}

// ---------------------------------------------------------------------------
// Context argument
// ---------------------------------------------------------------------------

/// Every character is an ASCII hex digit.
pub open spec fn all_hex(s: Seq<char>) -> bool {
    forall|i: int| 0 <= i < s.len() ==> is_hex(#[trigger] s[i])
}

/// A `--context` value must be 16 bytes of hex digits.
pub open spec fn context_arg_malformed(expected: Seq<char>) -> bool {
    encode_utf8(expected).len() != 16 || !all_hex(expected)
}

/// The message for a malformed `--context` value, giving its length in bytes.
pub open spec fn context_arg_message(len: nat) -> Seq<char> {
    "invalid --context length "@ + decimal(len)
        + "; expected 16 hex chars (e.g. a 16-char prefix from the context command)"@
}

/// Why a `--context` value is refused for the range, if it is: malformed,
/// or not the prefix of the range's context hash.
pub open spec fn context_error(ls: Seq<Seq<char>>, start: nat, end: nat, expected: Seq<char>) -> Option<
    Seq<char>,
> {
    if context_arg_malformed(expected) {
        Some(context_arg_message(encode_utf8(expected).len()))
    } else if context_hash(ls, start as int, end as int).take(16) != expected {
        Some(mismatch_message(start))
    } else {
        None
    }
}

/// Checks a `--context` value: its form first, then the hash of the
/// range's surroundings.
pub fn check_context(lines: &[String], start: usize, end: usize, expected: &str) -> (r: Result<
    (),
    String,
>)
    requires
        !context_arg_malformed(expected@) ==> end + 3 <= usize::MAX,
    ensures
        match r {
            Ok(_) => context_error(strs(lines@), start as nat, end as nat, expected@) is None,
            Err(m) => context_error(strs(lines@), start as nat, end as nat, expected@) == Some(m@),
        },
{
    match check_context_format(expected) {
        Err(m) => Err(m),
        Ok(_) => verify_context(lines, start, end, expected),
    }
}

/// Checks the form of a `--context` value: 16 bytes of hex digits.
pub fn check_context_format(expected: &str) -> (r: Result<(), String>)
    ensures
        match r {
            Ok(_) => !context_arg_malformed(expected@),
            Err(m) => context_arg_malformed(expected@) && m@ == context_arg_message(
                encode_utf8(expected@).len(),
            ),
        },
{
    let len = utf8_len(expected);
    let v = chars_of(expected);
    let mut ok = len == 16;
    let mut i: usize = 0;
    while ok && i < v.len()
        invariant
            v@ == expected@,
            i <= v@.len(),
            ok ==> len == 16 && forall|j: int| 0 <= j < i ==> is_hex(#[trigger] v@[j]),
            !ok ==> context_arg_malformed(expected@),
            len == encode_utf8(expected@).len(),
        decreases v.len() - i,
    {
        if !is_hex_exec(v[i]) {
            ok = false;
        }
        i = i + 1;
    }
    if !ok {
        let mut m = copy_str("invalid --context length ");
        push_decimal_u128(&mut m, len);
        push_str(&mut m, "; expected 16 hex chars (e.g. a 16-char prefix from the context command)");
        return Err(m);
    }
    Ok(())
}

// ---------------------------------------------------------------------------
// Splicing
// ---------------------------------------------------------------------------

/// `min(a, b)`.
pub open spec fn min_nat(a: nat, b: nat) -> nat {
    if a <= b {
        a
    } else {
        b
    }
}

/// How many existing lines the range replaces.
pub open spec fn removed_count(start: nat, end: nat, n: nat) -> nat {
    if start >= 1 && start - 1 < n {
        (min_nat(end, n) - (start - 1)) as nat
    } else {
        0
    }
}

/// The lines with `start..=end` replaced by `new`: the lines before `start`,
/// then `new`, then the lines after `end`; past the end, `new` is appended.
pub open spec fn spliced(ls: Seq<Seq<char>>, start: nat, end: nat, new: Seq<Seq<char>>) -> Seq<
    Seq<char>,
> {
    let s = start - 1;
    if s < ls.len() {
        ls.take(s) + new + ls.skip(min_nat(end, ls.len()) as int)
    } else {
        ls + new
    }
}

/// The content after the optional automatic re-indentation.
pub open spec fn final_content(ls: Seq<Seq<char>>, start: nat, content: Seq<char>, auto_indent: bool) -> Seq<char> {
    if content.len() > 0 && auto_indent && spec_needs_fix(ls, start as int, content) {
        spec_auto_indent(ls, start as int, content)
    } else {
        content
    }
}

/// What a splice plan comes to.
pub enum SpliceView {
    /// The splice is refused with this message (and, for an indentation
    /// failure, the warning).
    Refused { message: Seq<char>, warning: Option<Seq<char>> },
    /// The splice goes ahead.
    Planned {
        removed: nat,
        new_lines: Seq<Seq<char>>,
        fixed: Option<bool>,
        warning: Option<Seq<char>>,
        preview: Option<Seq<Seq<char>>>,
        result: Seq<Seq<char>>,
    },
}

/// The message of a refusal for bad indentation.
pub open spec fn indent_failure_message(warning: Option<Seq<char>>) -> Seq<char> {
    "Indentation validation failed: "@ + match warning {
        Some(w) => w,
        None => "Unknown indentation error"@,
    }
}

/// The context check and the range check pass.
pub open spec fn splice_checks_pass(
    ls: Seq<Seq<char>>,
    start: nat,
    end: nat,
    ctx: Option<Seq<char>>,
) -> bool {
    &&& match ctx {
        Some(e) => context_error(ls, start, end, e) is None,
        None => true,
    }
    &&& range_error(start, end, ls.len()) is None
}

/// The outcome of a splice: refused by the context check, by the range
/// check, or (outside a dry run) by the indentation check; otherwise the
/// plan: the number of removed lines, the new lines (after optional
/// re-indentation), the indentation warning, a preview for a dry run that
/// inserts, and the resulting lines.
pub open spec fn spec_plan_splice(
    ls: Seq<Seq<char>>,
    start: nat,
    end: nat,
    content: Seq<char>,
    dry_run: bool,
    auto_indent: bool,
    force_indent: bool,
    ctx: Option<Seq<char>>,
) -> SpliceView {
    let ctx_err = match ctx {
        Some(e) => context_error(ls, start, end, e),
        None => None,
    };
    match ctx_err {
        Some(m) => SpliceView::Refused { message: m, warning: None },
        None => match range_error(start, end, ls.len()) {
            Some(m) => SpliceView::Refused { message: m, warning: None },
            None => {
                let is_delete = content.len() == 0;
                let fc = final_content(ls, start, content, auto_indent);
                let new = split_lines(fc);
                let v = spec_validate(ls, start as int, new);
                let invalid = !is_delete && !force_indent && !v.0;
                let warning = if invalid {
                    v.1
                } else {
                    None
                };
                if invalid && !dry_run {
                    SpliceView::Refused { message: indent_failure_message(v.1), warning }
                } else {
                    SpliceView::Planned {
                        removed: removed_count(start, end, ls.len()),
                        new_lines: new,
                        fixed: if !is_delete && auto_indent && spec_needs_fix(ls, start as int, content) {
                            Some(true)
                        } else {
                            None
                        },
                        warning,
                        preview: if dry_run && !is_delete {
                            Some(spec_preview(ls, new, start as int, end as int))
                        } else {
                            None
                        },
                        result: spliced(ls, start, end, new),
                    }
                }
            },
        },
    }
}

/// The inputs on which a splice runs without an arithmetic overflow: the
/// range's end, the file's line count, the context window and the preview's
/// line numbers fit in a `usize`, and the expected indentation can be
/// represented.
pub open spec fn splice_fits(
    ls: Seq<Seq<char>>,
    start: nat,
    end: nat,
    content: Seq<char>,
    dry_run: bool,
    auto_indent: bool,
    force_indent: bool,
    ctx: Option<Seq<char>>,
) -> bool {
    &&& ls.len() < usize::MAX
    &&& end < usize::MAX
    &&& (ctx matches Some(e) && !context_arg_malformed(e) ==> end + 3 <= usize::MAX)
    &&& (splice_checks_pass(ls, start, end, ctx) && content.len() > 0) ==> {
        &&& (auto_indent || !force_indent) ==> expected_fits(ls, start as int)
        &&& dry_run ==> start - 1 + split_lines(final_content(ls, start, content, auto_indent)).len()
            <= usize::MAX
    }
}

/// Whether a splice stays within the machine's limits (`splice_fits`); the
/// tool stops, as on an overflow, where it does not.
pub fn splice_within_limits(
    lines: &[String],
    start: usize,
    end: usize,
    content: &str,
    dry_run: bool,
    auto_indent: bool,
    force_indent: bool,
    context: Option<&str>,
) -> (b: bool)
    ensures
        b == splice_fits(
            strs(lines@),
            start as nat,
            end as nat,
            content@,
            dry_run,
            auto_indent,
            force_indent,
            match context {
                Some(e) => Some(e@),
                None => None,
            },
        ),
{
    let n = lines.len();
    if n == usize::MAX || end == usize::MAX {
        return false;
    }
    let mut checks_pass = true;
    match context {
        Some(expected) => {
            if check_context_format(expected).is_ok() {
                if end > usize::MAX - 3 {
                    return false;
                }
                if verify_context(lines, start, end, expected).is_err() {
                    checks_pass = false;
                }
            } else {
                checks_pass = false;
            }
        },
        None => {},
    }
    if check_range(start, end, n).is_err() {
        checks_pass = false;
    }
    if !checks_pass || chars_of(content).len() == 0 {
        return true;
    }
    if (auto_indent || !force_indent) && !indent_fits_at(lines, start) {
        return false;
    }
    let fix = auto_indent && needs_indent_fix(lines, start, end, content);
    if dry_run {
        let fc = if fix {
            auto_indent_content(lines, start, end, content)
        } else {
            copy_str(content)
        };
        let new_len = split_lines_exec(fc.as_str()).len();
        return start - 1 <= usize::MAX - new_len;
    }
    true
}

/// A planned splice.
#[derive(Debug)]
pub struct SplicePlan {
    /// Number of existing lines replaced.
    pub lines_removed: usize,
    /// The new lines, each keeping its `'\n'`.
    pub new_lines: Vec<String>,
    /// `Some(true)` when the content was re-indented.
    pub indent_fixed: Option<bool>,
    /// The indentation warning, when the content is shallower than expected.
    pub indent_warning: Option<String>,
    /// The preview, for a dry run that inserts content.
    pub diff_preview: Option<Vec<String>>,
    /// The file's lines after the splice.
    pub result_lines: Vec<String>,
}

/// A refused splice.
#[derive(Debug)]
pub struct SpliceRefusal {
    /// Why.
    pub message: String,
    /// The indentation warning, for a refusal on indentation.
    pub indent_warning: Option<String>,
}

/// The view of a plan outcome.
pub open spec fn plan_view(r: Result<SplicePlan, SpliceRefusal>) -> SpliceView {
    match r {
        Ok(p) => SpliceView::Planned {
            removed: p.lines_removed as nat,
            new_lines: strs(p.new_lines@),
            fixed: p.indent_fixed,
            warning: opt_view(p.indent_warning),
            preview: match p.diff_preview {
                Some(v) => Some(strs(v@)),
                None => None,
            },
            result: strs(p.result_lines@),
        },
        Err(f) => SpliceView::Refused { message: f.message@, warning: opt_view(f.indent_warning) },
    }
}

/// Copies `lines[lo..hi]` onto the end of `out`.
fn push_range(out: &mut Vec<String>, lines: &[String], lo: usize, hi: usize)
    requires
        lo <= hi <= lines@.len(),
    ensures
        strs(final(out)@) == strs(old(out)@) + strs(lines@).subrange(lo as int, hi as int),
{
    let ghost start = strs(out@);
    let mut i = lo;
    while i < hi
        invariant
            lo <= i <= hi <= lines@.len(),
            strs(out@) == start + strs(lines@).subrange(lo as int, i as int),
        decreases hi - i,
    {
        let ghost before = strs(out@);
        out.push(copy_str(lines[i].as_str()));
        proof {
            assert(strs(out@) =~= before.push(lines@[i as int]@));
            assert(strs(lines@).subrange(lo as int, i + 1) =~= strs(lines@).subrange(lo as int, i as int).push(
                lines@[i as int]@,
            ));
        }
        i = i + 1;
    }
}

/// The lines with `start..=end` replaced by `new` (`start >= 1`).
pub fn splice_lines(lines: &[String], start: usize, end: usize, new: &[String]) -> (r: Vec<String>)
    requires
        start >= 1,
    ensures
        strs(r@) == spliced(strs(lines@), start as nat, end as nat, strs(new@)),
{
    let ghost ls = strs(lines@);
    let s = start - 1;
    let n = lines.len();
    let mut out: Vec<String> = Vec::new();
    if s < n {
        let ae = if end <= n {
            end
        } else {
            n
        };
        push_range(&mut out, lines, 0, s);
        push_range(&mut out, new, 0, new.len());
        if ae < n {
            push_range(&mut out, lines, ae, n);
        } else {
            assert(ls.skip(ae as int) =~= Seq::<Seq<char>>::empty());
        }
        proof {
            assert(ls.subrange(0, s as int) =~= ls.take(s as int));
            assert(strs(new@).subrange(0, new@.len() as int) =~= strs(new@));
            assert(ls.subrange(ae as int, n as int) =~= ls.skip(ae as int));
        }
    } else {
        push_range(&mut out, lines, 0, n);
        push_range(&mut out, new, 0, new.len());
        proof {
            assert(ls.subrange(0, n as int) =~= ls);
            assert(strs(new@).subrange(0, new@.len() as int) =~= strs(new@));
        }
    }
    assert(strs(out@) =~= spliced(ls, start as nat, end as nat, strs(new@)));
    out
}

/// Plans a splice of `content` over the lines `start..=end` (1-based) of a
/// file: the optional `--context` check, the range check, the optional
/// automatic re-indentation, the indentation check (refusing outside a dry
/// run), the preview of a dry run, and the resulting lines.
pub fn plan_splice(
    lines: &[String],
    start: usize,
    end: usize,
    content: &str,
    dry_run: bool,
    auto_indent: bool,
    force_indent: bool,
    context: Option<&str>,
) -> (r: Result<SplicePlan, SpliceRefusal>)
    requires
        splice_fits(
            strs(lines@),
            start as nat,
            end as nat,
            content@,
            dry_run,
            auto_indent,
            force_indent,
            match context {
                Some(e) => Some(e@),
                None => None,
            },
        ),
    ensures
        plan_view(r) == spec_plan_splice(
            strs(lines@),
            start as nat,
            end as nat,
            content@,
            dry_run,
            auto_indent,
            force_indent,
            match context {
                Some(e) => Some(e@),
                None => None,
            },
        ),
{
    let ghost ls = strs(lines@);
    let n = lines.len();
    match context {
        Some(expected) => {
            match check_context(lines, start, end, expected) {
                Err(m) => {
                    return Err(SpliceRefusal { message: m, indent_warning: None });
                },
                Ok(_) => {},
            }
        },
        None => {},
    }
    match check_range(start, end, n) {
        Err(m) => {
            return Err(SpliceRefusal { message: m, indent_warning: None });
        },
        Ok(_) => {},
    }
    let s = start - 1;
    let removed: usize = if s < n {
        let ae = if end <= n {
            end
        } else {
            n
        };
        ae - s
    } else {
        0
    };
    let is_delete = chars_of(content).len() == 0;
    let mut indent_fixed: Option<bool> = None;
    let mut indent_warning: Option<String> = None;
    let mut new_lines: Vec<String> = split_lines_exec(content);
    if !is_delete {
        if auto_indent && needs_indent_fix(lines, start, end, content) {
            let fixed = auto_indent_content(lines, start, end, content);
            new_lines = split_lines_exec(fixed.as_str());
            indent_fixed = Some(true);
        }
        if !force_indent {
            let (valid, warning, _suggested) = validate_indentation(lines, start, end, &new_lines);
            if !valid {
                if !dry_run {
                    let mut m = copy_str("Indentation validation failed: ");
                    match &warning {
                        Some(w) => push_str(&mut m, w.as_str()),
                        None => push_str(&mut m, "Unknown indentation error"),
                    }
                    return Err(SpliceRefusal { message: m, indent_warning: warning });
                }
                indent_warning = warning;
            }
        }
    }
    let diff_preview = if dry_run && !is_delete {
        Some(generate_preview(lines, &new_lines, start, end))
    } else {
        None
    };
    let result_lines = splice_lines(lines, start, end, &new_lines);
    Ok(SplicePlan { lines_removed: removed, new_lines, indent_fixed, indent_warning, diff_preview, result_lines })
}

// ---------------------------------------------------------------------------
// Laws
// ---------------------------------------------------------------------------

/// A splice over an accepted range keeps the lines before `start` and the
/// lines after `end`, puts the new lines between them, and changes the line
/// count by the number inserted minus the number removed.
pub proof fn law_splice_shape(ls: Seq<Seq<char>>, start: nat, end: nat, new: Seq<Seq<char>>)
    requires
        range_error(start, end, ls.len()) is None,
    ensures
        spliced(ls, start, end, new).len() + removed_count(start, end, ls.len()) == ls.len() + new.len(),
        spliced(ls, start, end, new).take(start - 1) == ls.take(start - 1),
        spliced(ls, start, end, new).subrange(start - 1, start - 1 + new.len()) == new,
        spliced(ls, start, end, new).skip(start - 1 + new.len()) == ls.skip(
            min_nat(end, ls.len()) as int,
        ),
{
    let r = spliced(ls, start, end, new);
    let s = start - 1;
    if s < ls.len() {
        assert(r.take(s) =~= ls.take(s));
        assert(r.subrange(s, s + new.len()) =~= new);
        assert(r.skip(s + new.len()) =~= ls.skip(min_nat(end, ls.len()) as int));
    } else {
        assert(s == ls.len());
        assert(r.take(s) =~= ls.take(s));
        assert(r.subrange(s, s + new.len()) =~= new);
        assert(r.skip(s + new.len()) =~= ls.skip(min_nat(end, ls.len()) as int));
    }
}

/// Line numbers count from 1 and end one past the file: a splice whose
/// start is 0, or lies beyond the line after the last, is refused.
pub proof fn law_out_of_range_refused(
    ls: Seq<Seq<char>>,
    start: nat,
    end: nat,
    content: Seq<char>,
    dry_run: bool,
    auto_indent: bool,
    force_indent: bool,
    ctx: Option<Seq<char>>,
)
    requires
        start == 0 || start > ls.len() + 1,
    ensures
        range_error(start, end, ls.len()) is Some,
        spec_plan_splice(ls, start, end, content, dry_run, auto_indent, force_indent, ctx) is Refused,
{
}

/// An insertion keeps a file non-empty: when the content is non-empty, so
/// are the lines that a splice leaves, unless the automatic re-indentation
/// turned the content into nothing (whitespace-only content).
pub proof fn law_insert_keeps_file_nonempty(
    ls: Seq<Seq<char>>,
    start: nat,
    end: nat,
    content: Seq<char>,
    dry_run: bool,
    auto_indent: bool,
    force_indent: bool,
    ctx: Option<Seq<char>>,
)
    requires
        spec_plan_splice(ls, start, end, content, dry_run, auto_indent, force_indent, ctx) is Planned,
        content.len() > 0,
    ensures
        spec_plan_splice(ls, start, end, content, dry_run, auto_indent, force_indent, ctx)->Planned_result.len()
            > 0 || (auto_indent && final_content(ls, start, content, auto_indent).len() == 0),
        !auto_indent ==> spec_plan_splice(
            ls,
            start,
            end,
            content,
            dry_run,
            auto_indent,
            force_indent,
            ctx,
        )->Planned_result.len() > 0,
{
    let new = split_lines(final_content(ls, start, content, auto_indent));
    if final_content(ls, start, content, auto_indent).len() > 0 {
        assert(new.len() > 0);
    }
    law_splice_shape(ls, start, end, new);
}

} // verus!
