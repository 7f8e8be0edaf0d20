//! Batch manifests: several splices applied to one file in one pass, from
//! the bottom of the file up, so that the line numbers of the operations
//! still to come never shift.
use vstd::prelude::*;
use vstd::multiset::Multiset;
use crate::context::verify_context;
use crate::diff::{generate_preview, spec_preview};
use crate::hex::{hex_decode, spec_hex_decode};
use crate::indent::{
    auto_indent_content, expected_fits,
    indent_fits_at, needs_indent_fix, spec_needs_fix, spec_validate, validate_indentation, opt_view,
    spec_auto_indent,
};
use crate::lines::{split_lines, split_lines_exec, strs};
use crate::num::{decimal, push_decimal};
use crate::splice::{
    check_range, context_arg_malformed, context_error, check_context, min_nat, range_error,
    splice_lines, spliced, SpliceRefusal,
};
use crate::text::{chars_of, copy_str, push_str};

verus! {

broadcast use vstd::seq_lib::group_to_multiset_ensures;

/// A single operation within a batch manifest.
#[derive(Debug, Clone)]
pub struct ManifestOp {
    /// 1-based start line (inclusive).
    pub start: usize,
    /// 1-based end line; the start when absent.
    pub end: Option<usize>,
    /// Hex-encoded content to insert at this position.
    pub hex: Option<String>,
    /// If true, delete the range instead of inserting content.
    pub delete: Option<bool>,
}

impl ManifestOp {
    /// The end line: `end`, or `start` when absent.
    pub open spec fn end_line(&self) -> nat {
        match self.end {
            Some(e) => e as nat,
            None => self.start as nat,
        }
    }
}

// ---------------------------------------------------------------------------
// Ordering
// ---------------------------------------------------------------------------

/// Two operations of `ops` start at line `s`.
pub open spec fn start_twice(ops: Seq<ManifestOp>, s: nat) -> bool {
    exists|i: int, j: int| 0 <= i < j < ops.len() && ops[i].start == s && ops[j].start == s
}

/// The message for operations that share a start line.
pub open spec fn overlap_message(s: nat) -> Seq<char> {
    "overlapping manifest operations at line "@ + decimal(s)
}

/// Start lines strictly decreasing: the bottom-up order.
pub open spec fn strictly_bottom_up(ops: Seq<ManifestOp>) -> bool {
    forall|i: int, j: int| 0 <= i < j < ops.len() ==> #[trigger] ops[i].start > #[trigger] ops[j].start
}

/// The largest start line shared by two operations, if any.
fn shared_start(ops: &Vec<ManifestOp>) -> (r: Option<usize>)
    ensures
        match r {
            Some(s) => start_twice(ops@, s as nat) && forall|t: nat| t > s ==> !start_twice(ops@, t),
            None => forall|t: nat| !start_twice(ops@, t),
        },
{
    let mut best: Option<usize> = None;
    let mut i: usize = 0;
    while i < ops.len()
        invariant
            i <= ops@.len(),
            match best {
                Some(s) => start_twice(ops@, s as nat),
                None => true,
            },
            forall|a: int, b: int|
                0 <= a < b < ops@.len() && a < i && ops@[a].start == ops@[b].start ==> (best matches Some(
                    s,
                ) && ops@[a].start <= s),
        decreases ops.len() - i,
    {
        let mut j: usize = i + 1;
        while j < ops.len()
            invariant
                i < ops@.len(),
                i + 1 <= j <= ops@.len(),
                match best {
                    Some(s) => start_twice(ops@, s as nat),
                    None => true,
                },
                forall|a: int, b: int|
                    0 <= a < b < ops@.len() && (a < i || (a == i && b < j)) && ops@[a].start
                        == ops@[b].start ==> (best matches Some(s) && ops@[a].start <= s),
            decreases ops.len() - j,
        {
            if ops[i].start == ops[j].start {
                let better = match best {
                    Some(s) => ops[i].start > s,
                    None => true,
                };
                if better {
                    best = Some(ops[i].start);
                    assert(start_twice(ops@, ops@[i as int].start as nat));
                }
            }
            j = j + 1;
        }
        i = i + 1;
    }
    proof {
        match best {
            Some(s) => {
                assert forall|t: nat| t > s implies !start_twice(ops@, t) by {
                    if start_twice(ops@, t) {
                        let (a, b) = choose|a: int, b: int|
                            0 <= a < b < ops@.len() && ops@[a].start == t && ops@[b].start == t;
                        assert(ops@[a].start <= s);
                    }
                }
            },
            None => {
                assert forall|t: nat| !start_twice(ops@, t) by {
                    if start_twice(ops@, t) {
                        let (a, b) = choose|a: int, b: int|
                            0 <= a < b < ops@.len() && ops@[a].start == t && ops@[b].start == t;
                        assert(ops@[a].start == ops@[b].start);
                    }
                }
            },
        }
    }
    best
}

/// Orders the operations bottom-up (by start line, descending), refusing
/// two operations with the same start line: the largest such line is named.
pub fn order_manifest_ops(ops: Vec<ManifestOp>) -> (r: Result<Vec<ManifestOp>, String>)
    ensures
        match r {
            Ok(v) => v@.to_multiset() == ops@.to_multiset() && strictly_bottom_up(v@) && forall|t: nat|
                !start_twice(ops@, t),
            Err(m) => exists|s: nat|
                start_twice(ops@, s) && (forall|t: nat| t > s ==> !start_twice(ops@, t)) && m@
                    == overlap_message(s),
        },
{
    match shared_start(&ops) {
        Some(s) => {
            let mut m = copy_str("overlapping manifest operations at line ");
            push_decimal(&mut m, s as u64);
            assert(start_twice(ops@, s as nat) && (forall|t: nat| t > s ==> !start_twice(ops@, t)) && m@
                == overlap_message(s as nat));
            return Err(m);
        },
        None => {},
    }
    let ghost orig = ops@;
    assert forall|a: int, b: int| 0 <= a < b < orig.len() implies #[trigger] orig[a].start != #[trigger] orig[b].start by {
        if orig[a].start == orig[b].start {
            assert(start_twice(orig, orig[a].start as nat));
        }
    }
    let mut rest = ops;
    let mut sorted: Vec<ManifestOp> = Vec::new();
    while rest.len() > 0
        invariant
            orig.to_multiset() == rest@.to_multiset().add(sorted@.to_multiset()),
            strictly_bottom_up(sorted@),
            forall|t: nat| !start_twice(orig, t),
            forall|a: int, b: int|
                0 <= a < rest@.len() && 0 <= b < sorted@.len() ==> #[trigger] rest@[a].start
                    != #[trigger] sorted@[b].start,
            forall|a: int, b: int|
                0 <= a < b < rest@.len() ==> #[trigger] rest@[a].start != #[trigger] rest@[b].start,
        decreases rest.len(),
    {
        let ghost before_rest = rest@;
        let ghost before_sorted = sorted@;
        let op = rest.pop().unwrap();
        proof {
            assert(before_rest == rest@.push(op));
            assert forall|b: int| 0 <= b < sorted@.len() implies #[trigger] sorted@[b].start != op.start by {
                assert(before_rest[before_rest.len() - 1] == op);
            }
        }
        let mut k: usize = 0;
        while k < sorted.len() && sorted[k].start > op.start
            invariant
                k <= sorted@.len(),
                forall|b: int| 0 <= b < k ==> #[trigger] sorted@[b].start > op.start,
            decreases sorted.len() - k,
        {
            k = k + 1;
        }
        proof {
            if k < sorted@.len() {
                assert(sorted@[k as int].start != op.start);
                assert(sorted@[k as int].start < op.start);
            }
        }
        sorted.insert(k, op);
        proof {
            let s2 = before_sorted.insert(k as int, op);
            assert(sorted@ == s2);
            assert forall|a: int, b: int| 0 <= a < b < s2.len() implies #[trigger] s2[a].start > #[trigger] s2[b].start by {
                if b < k {
                    assert(s2[a] == before_sorted[a] && s2[b] == before_sorted[b]);
                } else if b == k {
                    assert(s2[a] == before_sorted[a]);
                } else if a < k {
                    assert(s2[a] == before_sorted[a] && s2[b] == before_sorted[b - 1]);
                    if k < before_sorted.len() {
                        assert(before_sorted[k as int].start < op.start);
                        if b - 1 > k {
                            assert(before_sorted[k as int].start > before_sorted[b - 1].start);
                        }
                    }
                } else if a == k {
                    assert(s2[b] == before_sorted[b - 1]);
                    assert(before_sorted[k as int].start < op.start);
                    if b - 1 > k {
                        assert(before_sorted[k as int].start > before_sorted[b - 1].start);
                    }
                } else {
                    assert(s2[a] == before_sorted[a - 1] && s2[b] == before_sorted[b - 1]);
                }
            }
            assert(before_rest.to_multiset() == rest@.to_multiset().insert(op));
            assert(s2.to_multiset() == before_sorted.to_multiset().insert(op));
            assert(orig.to_multiset() =~= rest@.to_multiset().add(sorted@.to_multiset()));
            assert forall|a: int, b: int|
                0 <= a < rest@.len() && 0 <= b < sorted@.len() implies #[trigger] rest@[a].start
                    != #[trigger] sorted@[b].start by {
                assert(rest@[a] == before_rest[a]);
                if b < k {
                    assert(sorted@[b] == before_sorted[b]);
                } else if b == k {
                    assert(before_rest[before_rest.len() - 1] == op);
                } else {
                    assert(sorted@[b] == before_sorted[b - 1]);
                }
            }
        }
    }
    proof {
        assert(rest@ =~= Seq::<ManifestOp>::empty());
        assert(rest@.to_multiset() =~= Multiset::<ManifestOp>::empty());
        assert(orig.to_multiset() =~= sorted@.to_multiset());
    }
    Ok(sorted)
}

// ---------------------------------------------------------------------------
// The context gate
// ---------------------------------------------------------------------------

/// Why a `--context` value is refused for a manifest, if it is: malformed,
/// or (when there is an operation) not the prefix of the context hash of
/// the first operation in bottom-up order, against the file as it was read.
pub open spec fn manifest_context_error(ls: Seq<Seq<char>>, ops: Seq<ManifestOp>, expected: Seq<char>) -> Option<
    Seq<char>,
> {
    if ops.len() == 0 {
        if context_arg_malformed(expected) {
            Some(crate::splice::context_arg_message(vstd::utf8::encode_utf8(expected).len()))
        } else {
            None
        }
    } else {
        context_error(ls, ops[0].start as nat, ops[0].end_line(), expected)
    }
}

/// Checks a manifest's `--context` value once, before any operation.
pub fn check_manifest_context(lines: &[String], ops: &Vec<ManifestOp>, expected: &str) -> (r: Result<
    (),
    String,
>)
    requires
        ops@.len() > 0 && !context_arg_malformed(expected@) ==> ops@[0].end_line() + 3 <= usize::MAX,
    ensures
        match r {
            Ok(_) => manifest_context_error(strs(lines@), ops@, expected@) is None,
            Err(m) => manifest_context_error(strs(lines@), ops@, expected@) == Some(m@),
        },
{
    if ops.len() == 0 {
        return crate::splice::check_context_format(expected);
    }
    let first = &ops[0];
    let first_end = match first.end {
        Some(e) => e,
        None => first.start,
    };
    check_context(lines, first.start, first_end, expected)
}

// ---------------------------------------------------------------------------
// Applying the operations
// ---------------------------------------------------------------------------

/// The state of a manifest run: the lines so far, the totals, and the
/// previews of a dry run (start, end, preview lines).
pub struct ManifestState {
    pub lines: Seq<Seq<char>>,
    pub removed: nat,
    pub inserted: nat,
    pub previews: Seq<(nat, nat, Seq<Seq<char>>)>,
}

/// A refusal: the message and, for bad indentation, the warning.
pub type RefusalView = (Seq<char>, Option<Seq<char>>);

/// The message for an operation that both deletes and inserts.
pub open spec fn both_message() -> Seq<char> {
    "Cannot both delete and insert in the same manifest operation"@
}

/// The message for an operation that does neither.
pub open spec fn neither_message(start: nat) -> Seq<char> {
    "manifest operation at line "@ + decimal(start) + " must specify either 'delete' or 'hex'"@
}

/// The message for an operation refused on indentation.
pub open spec fn indent_failure_at(start: nat, warning: Option<Seq<char>>) -> Seq<char> {
    "Indentation validation failed at line "@ + decimal(start) + ": "@ + match warning {
        Some(w) => w,
        None => Seq::<char>::empty(),
    }
}

/// The content of an inserting operation after the optional re-indentation.
pub open spec fn op_content(ls: Seq<Seq<char>>, start: nat, c: Seq<char>, auto_indent: bool) -> Seq<char> {
    if c.len() > 0 && auto_indent && spec_needs_fix(ls, start as int, c) {
        spec_auto_indent(ls, start as int, c)
    } else {
        c
    }
}

/// One operation applied to the state: the range check against the current
/// lines; then a delete (refused with `hex` as well), or an insertion of the
/// decoded, optionally re-indented content (refused, outside a dry run, when
/// its indentation is shallower than expected); or a refusal when neither is
/// asked for. A dry run records a preview of each operation.
#[verifier::opaque]
pub open spec fn spec_apply_op(
    st: ManifestState,
    op: ManifestOp,
    dry_run: bool,
    auto_indent: bool,
    force_indent: bool,
) -> Result<ManifestState, RefusalView> {
    let n = st.lines.len();
    let start = op.start as nat;
    let end = op.end_line();
    match range_error(start, end, n) {
        Some(m) => Err((m, None)),
        None => {
            let s = (start - 1) as nat;
            let ae = min_nat(end, n);
            if op.delete == Some(true) {
                if op.hex is Some {
                    Err((both_message(), None))
                } else {
                    let after = spliced(st.lines, start, end, seq![]);
                    Ok(
                        ManifestState {
                            lines: after,
                            removed: st.removed + (ae - s) as nat,
                            inserted: st.inserted,
                            previews: if dry_run {
                                st.previews.push((start, ae, spec_preview(after, seq![], start as int, ae as int)))
                            } else {
                                st.previews
                            },
                        },
                    )
                }
            } else {
                match op.hex {
                    None => Err((neither_message(start), None)),
                    Some(h) => match spec_hex_decode(h@) {
                        Err(e) => Err(("hex decode: "@ + e, None)),
                        Ok(c) => {
                            let new = split_lines(op_content(st.lines, start, c, auto_indent));
                            let v = spec_validate(st.lines, start as int, new);
                            if c.len() > 0 && !force_indent && !v.0 && !dry_run {
                                Err((indent_failure_at(start, v.1), v.1))
                            } else {
                                Ok(
                                    ManifestState {
                                        lines: spliced(st.lines, start, end, new),
                                        removed: st.removed + (ae - s) as nat,
                                        inserted: st.inserted + new.len(),
                                        previews: if dry_run {
                                            st.previews.push(
                                                (start, ae, spec_preview(st.lines, new, start as int, ae as int)),
                                            )
                                        } else {
                                            st.previews
                                        },
                                    },
                                )
                            }
                        },
                    },
                }
            }
        },
    }
}

/// The operations applied in order, stopping at the first refusal.
pub open spec fn spec_apply_ops(
    st: ManifestState,
    ops: Seq<ManifestOp>,
    dry_run: bool,
    auto_indent: bool,
    force_indent: bool,
) -> Result<ManifestState, RefusalView>
    decreases ops.len(),
{
    if ops.len() == 0 {
        Ok(st)
    } else {
        match spec_apply_ops(st, ops.drop_last(), dry_run, auto_indent, force_indent) {
            Err(e) => Err(e),
            Ok(s2) => spec_apply_op(s2, ops.last(), dry_run, auto_indent, force_indent),
        }
    }
}

/// One operation runs without an arithmetic overflow: its range, the totals
/// and the preview's line numbers fit in a `usize`, and the expected
/// indentation can be represented.
#[verifier::opaque]
pub open spec fn op_fits(
    st: ManifestState,
    op: ManifestOp,
    dry_run: bool,
    auto_indent: bool,
    force_indent: bool,
) -> bool {
    let n = st.lines.len();
    let start = op.start as nat;
    let end = op.end_line();
    &&& n < usize::MAX
    &&& end < usize::MAX
    &&& range_error(start, end, n) is None ==> {
        let s = (start - 1) as nat;
        let ae = min_nat(end, n);
        &&& st.removed + (ae - s) <= usize::MAX
        &&& op.delete != Some(true) ==> match op.hex {
            Some(h) => match spec_hex_decode(h@) {
                Ok(c) => insert_fits(st, start, c, dry_run, auto_indent, force_indent),
                Err(_) => true,
            },
            None => true,
        }
    }
}

/// An insertion of `c` at `start` runs without an arithmetic overflow.
pub open spec fn insert_fits(
    st: ManifestState,
    start: nat,
    c: Seq<char>,
    dry_run: bool,
    auto_indent: bool,
    force_indent: bool,
) -> bool {
    let new = split_lines(op_content(st.lines, start, c, auto_indent));
    &&& c.len() > 0 ==> ((auto_indent || !force_indent) ==> expected_fits(st.lines, start as int))
    &&& st.inserted + new.len() <= usize::MAX
    &&& dry_run ==> start - 1 + new.len() <= usize::MAX
}

/// Every operation that is reached runs without an arithmetic overflow.
pub open spec fn ops_fit(
    st: ManifestState,
    ops: Seq<ManifestOp>,
    dry_run: bool,
    auto_indent: bool,
    force_indent: bool,
) -> bool
    decreases ops.len(),
{
    if ops.len() == 0 {
        true
    } else {
        &&& ops_fit(st, ops.drop_last(), dry_run, auto_indent, force_indent)
        &&& match spec_apply_ops(st, ops.drop_last(), dry_run, auto_indent, force_indent) {
            Ok(s2) => op_fits(s2, ops.last(), dry_run, auto_indent, force_indent),
            Err(_) => true,
        }
    }
}

/// The preview of one operation of a dry run.
#[derive(Debug)]
pub struct OpPreview {
    pub start: usize,
    pub end: usize,
    pub diff_preview: Vec<String>,
}

/// The result of applying a manifest.
#[derive(Debug)]
pub struct ManifestOutcome {
    /// The file's lines after the operations.
    pub lines: Vec<String>,
    /// Total number of lines removed.
    pub lines_removed: usize,
    /// Total number of lines inserted.
    pub lines_inserted: usize,
    /// One preview per operation, for a dry run.
    pub previews: Vec<OpPreview>,
}

/// The view of the previews.
pub open spec fn previews_view(v: Seq<OpPreview>) -> Seq<(nat, nat, Seq<Seq<char>>)> {
    v.map_values(|p: OpPreview| (p.start as nat, p.end as nat, strs(p.diff_preview@)))
}

/// The view of an outcome.
pub open spec fn outcome_state(o: ManifestOutcome) -> ManifestState {
    ManifestState {
        lines: strs(o.lines@),
        removed: o.lines_removed as nat,
        inserted: o.lines_inserted as nat,
        previews: previews_view(o.previews@),
    }
}

/// The view of a result.
pub open spec fn manifest_view(r: Result<ManifestOutcome, SpliceRefusal>) -> Result<ManifestState, RefusalView> {
    match r {
        Ok(o) => Ok(outcome_state(o)),
        Err(f) => Err((f.message@, opt_view(f.indent_warning))),
    }
}

/// The starting state for a file's lines.
pub open spec fn initial_state(ls: Seq<Seq<char>>) -> ManifestState {
    ManifestState { lines: ls, removed: 0, inserted: 0, previews: seq![] }
}

/// Applies one operation; `None` when it would exceed the machine's limits
/// (see `op_fits`).
#[verifier::rlimit(80)]
#[verifier::spinoff_prover]
fn apply_op(
    st: ManifestOutcome,
    op: &ManifestOp,
    dry_run: bool,
    auto_indent: bool,
    force_indent: bool,
) -> (r: Option<Result<ManifestOutcome, SpliceRefusal>>)
    ensures
        r is Some <==> op_fits(outcome_state(st), *op, dry_run, auto_indent, force_indent),
        r matches Some(x) ==> manifest_view(x) == spec_apply_op(
            outcome_state(st),
            *op,
            dry_run,
            auto_indent,
            force_indent,
        ),
{
    reveal(spec_apply_op);
    reveal(op_fits);
    let ghost s0 = outcome_state(st);
    let n = st.lines.len();
    let start = op.start;
    let end = match op.end {
        Some(e) => e,
        None => op.start,
    };
    if n == usize::MAX || end == usize::MAX {
        return None;
    }
    match check_range(start, end, n) {
        Err(m) => {
            return Some(Err(SpliceRefusal { message: m, indent_warning: None }));
        },
        Ok(_) => {},
    }
    let s = start - 1;
    let ae = if end <= n {
        end
    } else {
        n
    };
    if st.lines_removed > usize::MAX - (ae - s) {
        return None;
    }
    let mut st = st;
    let deleting = match op.delete {
        Some(d) => d,
        None => false,
    };
    if deleting {
        if op.hex.is_some() {
            return Some(Err(SpliceRefusal { message: copy_str("Cannot both delete and insert in the same manifest operation"), indent_warning: None }));
        }
        let empty: Vec<String> = Vec::new();
        let after = splice_lines(&st.lines, start, end, &empty);
        proof {
            assert(strs(empty@) =~= Seq::<Seq<char>>::empty());
        }
        if dry_run {
            let diff_preview = generate_preview(&after, &empty, start, ae);
            let ghost pv = st.previews@;
            st.previews.push(OpPreview { start, end: ae, diff_preview });
            proof {
                assert(previews_view(st.previews@) =~= previews_view(pv).push(
                    (start as nat, ae as nat, spec_preview(strs(after@), seq![], start as int, ae as int)),
                ));
            }
        }
        st.lines = after;
        st.lines_removed = st.lines_removed + (ae - s);
        return Some(Ok(st));
    }
    match &op.hex {
        None => {
            let mut m = copy_str("manifest operation at line ");
            push_decimal(&mut m, start as u64);
            push_str(&mut m, " must specify either 'delete' or 'hex'");
            Some(Err(SpliceRefusal { message: m, indent_warning: None }))
        },
        Some(h) => {
            let content = match hex_decode(h.as_str()) {
                Err(e) => {
                    let mut m = copy_str("hex decode: ");
                    push_str(&mut m, e.as_str());
                    return Some(Err(SpliceRefusal { message: m, indent_warning: None }));
                },
                Ok(c) => c,
            };
            let has_content = chars_of(content.as_str()).len() > 0;
            if has_content && (auto_indent || !force_indent) && !indent_fits_at(&st.lines, start) {
                return None;
            }
            let fix = has_content && auto_indent && needs_indent_fix(&st.lines, start, end, content.as_str());
            let final_content = if fix {
                auto_indent_content(&st.lines, start, end, content.as_str())
            } else {
                content
            };
            let new = split_lines_exec(final_content.as_str());
            if st.lines_inserted > usize::MAX - new.len() || (dry_run && s > usize::MAX - new.len()) {
                return None;
            }
            if has_content && !force_indent {
                let (valid, warning, _) = validate_indentation(&st.lines, start, end, &new);
                if !valid && !dry_run {
                    let mut m = copy_str("Indentation validation failed at line ");
                    push_decimal(&mut m, start as u64);
                    push_str(&mut m, ": ");
                    match &warning {
                        Some(w) => push_str(&mut m, w.as_str()),
                        None => {},
                    }
                    proof {
                        assert(m@ =~= indent_failure_at(start as nat, opt_view(warning)));
                    }
                    return Some(Err(SpliceRefusal { message: m, indent_warning: warning }));
                }
            }
            if dry_run {
                let diff_preview = generate_preview(&st.lines, &new, start, ae);
                let ghost pv = st.previews@;
                st.previews.push(OpPreview { start, end: ae, diff_preview });
                proof {
                    assert(previews_view(st.previews@) =~= previews_view(pv).push(
                        (start as nat, ae as nat, spec_preview(s0.lines, strs(new@), start as int, ae as int)),
                    ));
                }
            }
            let after = splice_lines(&st.lines, start, end, &new);
            st.lines = after;
            st.lines_removed = st.lines_removed + (ae - s);
            st.lines_inserted = st.lines_inserted + new.len();
            Some(Ok(st))
        },
    }
}

proof fn lemma_apply_ops_step(
    st: ManifestState,
    ops: Seq<ManifestOp>,
    i: int,
    dry_run: bool,
    auto_indent: bool,
    force_indent: bool,
)
    requires
        0 <= i < ops.len(),
    ensures
        spec_apply_ops(st, ops.take(i + 1), dry_run, auto_indent, force_indent) == match spec_apply_ops(
            st,
            ops.take(i),
            dry_run,
            auto_indent,
            force_indent,
        ) {
            Err(e) => Err(e),
            Ok(s2) => spec_apply_op(s2, ops[i], dry_run, auto_indent, force_indent),
        },
        ops_fit(st, ops.take(i + 1), dry_run, auto_indent, force_indent) == (ops_fit(
            st,
            ops.take(i),
            dry_run,
            auto_indent,
            force_indent,
        ) && match spec_apply_ops(st, ops.take(i), dry_run, auto_indent, force_indent) {
            Ok(s2) => op_fits(s2, ops[i], dry_run, auto_indent, force_indent),
            Err(_) => true,
        }),
{
    assert(ops.take(i + 1).drop_last() == ops.take(i));
    assert(ops.take(i + 1).last() == ops[i]);
}

proof fn lemma_ops_fit_prefix(
    st: ManifestState,
    ops: Seq<ManifestOp>,
    k: int,
    dry_run: bool,
    auto_indent: bool,
    force_indent: bool,
)
    requires
        0 <= k <= ops.len(),
        ops_fit(st, ops, dry_run, auto_indent, force_indent),
    ensures
        ops_fit(st, ops.take(k), dry_run, auto_indent, force_indent),
    decreases ops.len() - k,
{
    if k < ops.len() {
        lemma_ops_fit_prefix(st, ops, k + 1, dry_run, auto_indent, force_indent);
        lemma_apply_ops_step(st, ops, k, dry_run, auto_indent, force_indent);
    } else {
        assert(ops.take(k) == ops);
    }
}

/// Applies the operations, in the order given (bottom-up once ordered by
/// `order_manifest_ops`), to the file's lines; `None` when an operation that
/// is reached would exceed the machine's limits (see `ops_fit`).
pub fn run_manifest_ops(
    lines: &[String],
    ops: &Vec<ManifestOp>,
    dry_run: bool,
    auto_indent: bool,
    force_indent: bool,
) -> (r: Option<Result<ManifestOutcome, SpliceRefusal>>)
    ensures
        r is Some <==> ops_fit(initial_state(strs(lines@)), ops@, dry_run, auto_indent, force_indent),
        r matches Some(x) ==> manifest_view(x) == spec_apply_ops(
            initial_state(strs(lines@)),
            ops@,
            dry_run,
            auto_indent,
            force_indent,
        ),
{
    let ghost st0 = initial_state(strs(lines@));
    let mut copy: Vec<String> = Vec::new();
    let mut k: usize = 0;
    while k < lines.len()
        invariant
            k <= lines@.len(),
            strs(copy@) == strs(lines@).take(k as int),
        decreases lines.len() - k,
    {
        let ghost before = strs(copy@);
        copy.push(copy_str(lines[k].as_str()));
        proof {
            assert(strs(copy@) =~= before.push(lines@[k as int]@));
            assert(strs(lines@).take(k + 1) =~= strs(lines@).take(k as int).push(lines@[k as int]@));
        }
        k = k + 1;
    }
    assert(strs(lines@).take(lines@.len() as int) =~= strs(lines@));
    let mut st = ManifestOutcome { lines: copy, lines_removed: 0, lines_inserted: 0, previews: Vec::new() };
    proof {
        assert(previews_view(st.previews@) =~= Seq::<(nat, nat, Seq<Seq<char>>)>::empty());
        assert(outcome_state(st) == st0);
        assert(ops@.take(0) =~= Seq::<ManifestOp>::empty());
    }
    let mut i: usize = 0;
    while i < ops.len()
        invariant
            i <= ops@.len(),
            st0 == initial_state(strs(lines@)),
            ops_fit(st0, ops@.take(i as int), dry_run, auto_indent, force_indent),
            spec_apply_ops(st0, ops@.take(i as int), dry_run, auto_indent, force_indent) == Ok::<
                ManifestState,
                RefusalView,
            >(outcome_state(st)),
        decreases ops.len() - i,
    {
        proof {
            lemma_apply_ops_step(st0, ops@, i as int, dry_run, auto_indent, force_indent);
        }
        let ghost cur = outcome_state(st);
        match apply_op(st, &ops[i], dry_run, auto_indent, force_indent) {
            None => {
                proof {
                    assert(!ops_fit(st0, ops@.take(i + 1), dry_run, auto_indent, force_indent));
                    if ops_fit(st0, ops@, dry_run, auto_indent, force_indent) {
                        lemma_ops_fit_prefix(st0, ops@, i + 1, dry_run, auto_indent, force_indent);
                    }
                }
                return None;
            },
            Some(Err(f)) => {
                proof {
                    assert(spec_apply_ops(st0, ops@.take(i + 1), dry_run, auto_indent, force_indent) == Err::<ManifestState, RefusalView>((f.message@, opt_view(f.indent_warning))));
                    lemma_apply_ops_refused(st0, ops@, i + 1, dry_run, auto_indent, force_indent);
                }
                return Some(Err(f));
            },
            Some(Ok(next)) => {
                st = next;
            },
        }
        i = i + 1;
    }
    assert(ops@.take(ops@.len() as int) == ops@);
    Some(Ok(st))
}

/// Applies the operations, in the order given (bottom-up once ordered by
/// `order_manifest_ops`), to the file's lines.
pub fn apply_manifest_ops(
    lines: &[String],
    ops: &Vec<ManifestOp>,
    dry_run: bool,
    auto_indent: bool,
    force_indent: bool,
) -> (r: Result<ManifestOutcome, SpliceRefusal>)
    requires
        ops_fit(initial_state(strs(lines@)), ops@, dry_run, auto_indent, force_indent),
    ensures
        manifest_view(r) == spec_apply_ops(
            initial_state(strs(lines@)),
            ops@,
            dry_run,
            auto_indent,
            force_indent,
        ),
{
    match run_manifest_ops(lines, ops, dry_run, auto_indent, force_indent) {
        Some(r) => r,
        None => {
            assert(false);
            Err(SpliceRefusal { message: String::new(), indent_warning: None })
        },
    }
}

/// Once refused, the run stays refused.
proof fn lemma_apply_ops_refused(
    st: ManifestState,
    ops: Seq<ManifestOp>,
    k: int,
    dry_run: bool,
    auto_indent: bool,
    force_indent: bool,
)
    requires
        0 <= k <= ops.len(),
        spec_apply_ops(st, ops.take(k), dry_run, auto_indent, force_indent) is Err,
    ensures
        spec_apply_ops(st, ops, dry_run, auto_indent, force_indent) == spec_apply_ops(
            st,
            ops.take(k),
            dry_run,
            auto_indent,
            force_indent,
        ),
        ops_fit(st, ops, dry_run, auto_indent, force_indent) == ops_fit(
            st,
            ops.take(k),
            dry_run,
            auto_indent,
            force_indent,
        ),
    decreases ops.len() - k,
{
    if k < ops.len() {
        lemma_apply_ops_step(st, ops, k, dry_run, auto_indent, force_indent);
        lemma_apply_ops_refused(st, ops, k + 1, dry_run, auto_indent, force_indent);
    } else {
        assert(ops.take(k) == ops);
    }
}

// ---------------------------------------------------------------------------
// Laws
// ---------------------------------------------------------------------------

/// One applied operation leaves the lines above its start as they were.
pub proof fn law_op_keeps_lines_above(
    st: ManifestState,
    op: ManifestOp,
    dry_run: bool,
    auto_indent: bool,
    force_indent: bool,
)
    requires
        spec_apply_op(st, op, dry_run, auto_indent, force_indent) is Ok,
    ensures
        spec_apply_op(st, op, dry_run, auto_indent, force_indent)->Ok_0.lines.take(op.start - 1)
            == st.lines.take(op.start - 1),
        op.start >= 1,
        op.start - 1 <= st.lines.len(),
        op.start - 1 <= spec_apply_op(st, op, dry_run, auto_indent, force_indent)->Ok_0.lines.len(),
{
    reveal(spec_apply_op);
    let start = op.start as nat;
    let end = op.end_line();
    assert(range_error(start, end, st.lines.len()) is None);
    let r = spec_apply_op(st, op, dry_run, auto_indent, force_indent)->Ok_0;
    if op.delete == Some(true) {
        crate::splice::law_splice_shape(st.lines, start, end, seq![]);
    } else {
        let h = op.hex->0;
        let c = spec_hex_decode(h@)->Ok_0;
        let new = split_lines(op_content(st.lines, start, c, auto_indent));
        crate::splice::law_splice_shape(st.lines, start, end, new);
    }
}

/// Line numbers never shift in a manifest applied bottom-up: when the start
/// lines strictly decrease and every operation is applied, the lines above
/// the lowest operation's start are exactly the lines of the file as it was
/// read.
pub proof fn law_bottom_up_keeps_lines_above(
    st: ManifestState,
    ops: Seq<ManifestOp>,
    dry_run: bool,
    auto_indent: bool,
    force_indent: bool,
)
    requires
        ops.len() > 0,
        strictly_bottom_up(ops),
        spec_apply_ops(st, ops, dry_run, auto_indent, force_indent) is Ok,
    ensures
        spec_apply_ops(st, ops, dry_run, auto_indent, force_indent)->Ok_0.lines.take(ops.last().start - 1)
            == st.lines.take(ops.last().start - 1),
        ops.last().start - 1 <= st.lines.len(),
        ops.last().start - 1 <= spec_apply_ops(st, ops, dry_run, auto_indent, force_indent)->Ok_0.lines.len(),
    decreases ops.len(),
{
    let init = ops.drop_last();
    let op = ops.last();
    let mid = spec_apply_ops(st, init, dry_run, auto_indent, force_indent);
    assert(mid is Ok);
    let m = mid->Ok_0;
    law_op_keeps_lines_above(m, op, dry_run, auto_indent, force_indent);
    let j = op.start - 1;
    if init.len() == 0 {
        assert(m == st);
    } else {
        assert(strictly_bottom_up(init)) by {
            assert forall|a: int, b: int| 0 <= a < b < init.len() implies #[trigger] init[a].start > #[trigger] init[b].start by {
                assert(init[a] == ops[a] && init[b] == ops[b]);
            }
        }
        law_bottom_up_keeps_lines_above(st, init, dry_run, auto_indent, force_indent);
        let prev = init.last();
        assert(prev == ops[ops.len() - 2]);
        assert(prev.start > op.start);
        law_op_keeps_lines_above(
            spec_apply_ops(st, init.drop_last(), dry_run, auto_indent, force_indent)->Ok_0,
            prev,
            dry_run,
            auto_indent,
            force_indent,
        );
        let k = prev.start - 1;
        assert(m.lines.take(k) == st.lines.take(k));
        assert(m.lines.take(j) =~= m.lines.take(k).take(j));
        assert(st.lines.take(j) =~= st.lines.take(k).take(j));
    }
    let r = spec_apply_op(m, op, dry_run, auto_indent, force_indent)->Ok_0;
    assert(r.lines.take(j) == m.lines.take(j));
}

/// Every operation of a manifest applied bottom-up edits the lines its line
/// numbers name in the file as it was read, when it ends above the start of
/// the operation applied just before it: the lines up to its end line are
/// still those of that file when it is reached.
pub proof fn law_bottom_up_ops_edit_lines_as_read(
    st: ManifestState,
    ops: Seq<ManifestOp>,
    i: int,
    dry_run: bool,
    auto_indent: bool,
    force_indent: bool,
)
    requires
        strictly_bottom_up(ops),
        0 < i < ops.len(),
        ops[i].end_line() < ops[i - 1].start,
        spec_apply_ops(st, ops.take(i), dry_run, auto_indent, force_indent) is Ok,
    ensures
        ops[i].end_line() <= st.lines.len(),
        spec_apply_ops(st, ops.take(i), dry_run, auto_indent, force_indent)->Ok_0.lines.take(
            ops[i].end_line() as int,
        ) == st.lines.take(ops[i].end_line() as int),
{
    let pre = ops.take(i);
    assert(strictly_bottom_up(pre)) by {
        assert forall|a: int, b: int| 0 <= a < b < pre.len() implies #[trigger] pre[a].start > #[trigger] pre[b].start by {
            assert(pre[a] == ops[a] && pre[b] == ops[b]);
        }
    }
    assert(pre.last() == ops[i - 1]);
    law_bottom_up_keeps_lines_above(st, pre, dry_run, auto_indent, force_indent);
    let m = spec_apply_ops(st, pre, dry_run, auto_indent, force_indent)->Ok_0;
    let k = ops[i - 1].start - 1;
    let e = ops[i].end_line() as int;
    assert(m.lines.take(e) =~= m.lines.take(k).take(e));
    assert(st.lines.take(e) =~= st.lines.take(k).take(e));
}

/// Line accounting: every line removed or inserted by a manifest is
/// counted, so the final line count is the starting count plus the lines
/// inserted minus the lines removed.
pub proof fn law_manifest_line_count(
    st: ManifestState,
    ops: Seq<ManifestOp>,
    dry_run: bool,
    auto_indent: bool,
    force_indent: bool,
)
    requires
        spec_apply_ops(st, ops, dry_run, auto_indent, force_indent) is Ok,
    ensures
        ({
            let r = spec_apply_ops(st, ops, dry_run, auto_indent, force_indent)->Ok_0;
            r.lines.len() + r.removed + st.inserted == st.lines.len() + st.removed + r.inserted
        }),
    decreases ops.len(),
{
    if ops.len() > 0 {
        let init = ops.drop_last();
        law_manifest_line_count(st, init, dry_run, auto_indent, force_indent);
        let m = spec_apply_ops(st, init, dry_run, auto_indent, force_indent)->Ok_0;
        let op = ops.last();
        reveal(spec_apply_op);
        let start = op.start as nat;
        let end = op.end_line();
        if op.delete == Some(true) {
            crate::splice::law_splice_shape(m.lines, start, end, seq![]);
        } else {
            let h = op.hex->0;
            let c = spec_hex_decode(h@)->Ok_0;
            let new = split_lines(op_content(m.lines, start, c, auto_indent));
            crate::splice::law_splice_shape(m.lines, start, end, new);
        }
    }
}

} // verus!
