//! Preview of an edit for dry runs: the edited range with a little context,
//! the removed lines and the added lines.
use vstd::prelude::*;
use crate::lines::strs;
use crate::num::{decimal, push_decimal, is_digit, lemma_decimal_starts_with_digit};
use crate::text::{chars_of, copy_str, push_str, string_of_range, trail_len};

verus! {

/// The line without its trailing `'\n'` characters (`trim_end_matches('\n')`).
pub open spec fn trim_newlines(l: Seq<char>) -> Seq<char> {
    l.take(l.len() - trail_len(l, |c: char| c == '\n'))
}

/// One numbered preview line: `prefix`, the number, `sep`, then the line
/// without its trailing newlines.
pub open spec fn numbered(prefix: Seq<char>, n: nat, sep: Seq<char>, line: Seq<char>) -> Seq<char> {
    prefix + decimal(n) + sep + trim_newlines(line)
}

/// `min(a, b)`.
pub open spec fn min_int(a: int, b: int) -> int {
    if a <= b {
        a
    } else {
        b
    }
}

/// The three header lines.
pub open spec fn preview_header(start: nat, end: nat, added: nat) -> Seq<Seq<char>> {
    seq![
        "--- original (lines "@ + decimal(start) + "-"@ + decimal(end) + ")"@,
        "+++ modified ("@ + decimal(added) + " lines)"@,
        Seq::<char>::empty(),
    ]
}

/// Up to three context lines before the range, each numbered with the
/// number of the first of them, then `" ..."` when there were any.
pub open spec fn preview_before(old: Seq<Seq<char>>, start: int) -> Seq<Seq<char>> {
    let cb = if start >= 3 {
        start - 3
    } else {
        0
    };
    let hi = min_int(start - 1, old.len() as int);
    let n = if hi > cb {
        hi - cb
    } else {
        0
    };
    Seq::new(n as nat, |j: int| numbered(" "@, (cb + 1) as nat, " | "@, old[cb + j])) + if cb < start
        - 1 {
        seq![" ..."@]
    } else {
        seq![]
    }
}

/// The lines of the range, numbered and marked `-`.
pub open spec fn preview_removed(old: Seq<Seq<char>>, start: int, end: int) -> Seq<Seq<char>> {
    let se = min_int(end, old.len() as int);
    let n = if se > start - 1 {
        se - (start - 1)
    } else {
        0
    };
    Seq::new(n as nat, |j: int| numbered("-"@, (start + j) as nat, "| "@, old[start - 1 + j]))
}

/// The new lines, numbered from `start` and marked `+`.
pub open spec fn preview_added(new: Seq<Seq<char>>, start: int) -> Seq<Seq<char>> {
    Seq::new(new.len(), |i: int| numbered("+"@, (start + i) as nat, "| "@, new[i]))
}

/// Up to three context lines after the range, after `" ..."`, each numbered
/// with the number of the first of them.
pub open spec fn preview_after(old: Seq<Seq<char>>, end: int) -> Seq<Seq<char>> {
    let se = min_int(end, old.len() as int);
    if se < old.len() {
        let ca = min_int(se + 3, old.len() as int);
        seq![" ..."@] + Seq::new((ca - se) as nat, |j: int| numbered(" "@, (se + 1) as nat, " | "@, old[se + j]))
    } else {
        seq![]
    }
}

/// The whole preview.
pub open spec fn spec_preview(old: Seq<Seq<char>>, new: Seq<Seq<char>>, start: int, end: int) -> Seq<Seq<char>> {
    preview_header(start as nat, end as nat, new.len()) + preview_before(old, start) + preview_removed(
        old,
        start,
        end,
    ) + preview_added(new, start) + preview_after(old, end)
}

/// A preview row that marks a removed line: `-` followed by a digit.
pub open spec fn is_removed_row(r: Seq<char>) -> bool {
    r.len() >= 2 && r[0] == '-' && is_digit(r[1])
}

/// The preview lists every line the edit removes, and nothing else, as a
/// removed row: for a range `start..=end` it holds one row per line from
/// `start` to `min(end, number of lines)`, consecutive and in order, each
/// `-`, the line's number, `| ` and the line's text; no other row of the
/// preview is a removed row.
pub proof fn law_preview_removed_rows(old: Seq<Seq<char>>, new: Seq<Seq<char>>, start: int, end: int)
    requires
        start >= 1,
    ensures
        ({
            let p = spec_preview(old, new, start, end);
            let last = if end <= old.len() { end } else { old.len() as int };
            let n = if last >= start { last - start + 1 } else { 0 };
            exists|q: int|
                #![trigger p[q]]
                0 <= q && q + n <= p.len() && (forall|j: int|
                    0 <= j < n ==> p[q + j] == "-"@ + decimal((start + j) as nat) + "| "@ + trim_newlines(
                        #[trigger] old[start - 1 + j],
                    ) && is_removed_row(p[q + j])) && (forall|k: int|
                    0 <= k < p.len() && is_removed_row(#[trigger] p[k]) ==> q <= k < q + n)
        }),
{
    let p = spec_preview(old, new, start, end);
    let h = preview_header(start as nat, end as nat, new.len());
    let b = preview_before(old, start);
    let r = preview_removed(old, start, end);
    let a = preview_added(new, start);
    let af = preview_after(old, end);
    let last = if end <= old.len() { end } else { old.len() as int };
    let n = if last >= start { last - start + 1 } else { 0 };
    let q: int = 3 + b.len() as int;
    assert(p == h + b + r + a + af);
    assert(r.len() == n);
    reveal_strlit("--- original (lines ");
    reveal_strlit("+++ modified (");
    reveal_strlit(" ...");
    reveal_strlit(" ");
    reveal_strlit("-");
    reveal_strlit("+");
    assert forall|j: int| 0 <= j < n implies p[q + j] == "-"@ + decimal((start + j) as nat) + "| "@ + trim_newlines(
        #[trigger] old[start - 1 + j],
    ) && is_removed_row(p[q + j]) by {
        assert(p[q + j] == r[j]);
        lemma_decimal_starts_with_digit((start + j) as nat);
    }
    assert forall|k: int| 0 <= k < p.len() && is_removed_row(#[trigger] p[k]) implies q <= k < q + n by {
        if k < 3 {
            assert(p[k] == h[k]);
            if k == 0 {
                assert(h[0][1] == '-');
            } else if k == 1 {
                assert(h[1][0] == '+');
            }
        } else if k < q {
            assert(p[k] == b[k - 3]);
            let i = k - 3;
            let cb = if start >= 3 { start - 3 } else { 0 };
            let hi = min_int(start - 1, old.len() as int);
            let m = if hi > cb { hi - cb } else { 0 };
            if i < m {
                assert(b[i] == numbered(" "@, (cb + 1) as nat, " | "@, old[cb + i]));
                assert(b[i][0] == ' ');
            } else {
                assert(b[i] == " ..."@);
            }
        } else if k >= q + n {
            let t = k - q - n;
            if t < a.len() {
                assert(p[k] == a[t]);
                assert(a[t][0] == '+');
            } else {
                let u = t - a.len();
                assert(p[k] == af[u]);
                let se = min_int(end, old.len() as int);
                if u == 0 {
                    assert(af[0] == " ..."@);
                } else {
                    let ca = min_int(se + 3, old.len() as int);
                    assert(af[u] == numbered(" "@, (se + 1) as nat, " | "@, old[se + u - 1]));
                    assert(af[u][0] == ' ');
                }
            }
        }
    }
    assert(0 <= q && q + n <= p.len());
    assert(p[q] == p[q]);
}

/// A preview row that marks an added line: `+` followed by a digit.
pub open spec fn is_added_row(r: Seq<char>) -> bool {
    r.len() >= 2 && r[0] == '+' && is_digit(r[1])
}

/// The preview lists every new line, and nothing else, as an added row:
/// one row per new line, consecutive and in order, each `+`, its number
/// counted from `start`, `| ` and its text; no other row is an added row.
pub proof fn law_preview_added_rows(old: Seq<Seq<char>>, new: Seq<Seq<char>>, start: int, end: int)
    requires
        start >= 1,
    ensures
        ({
            let p = spec_preview(old, new, start, end);
            exists|q: int|
                #![trigger p[q]]
                0 <= q && q + new.len() <= p.len() && (forall|j: int|
                    0 <= j < new.len() ==> p[q + j] == "+"@ + decimal((start + j) as nat) + "| "@
                        + trim_newlines(#[trigger] new[j]) && is_added_row(p[q + j])) && (forall|k: int|
                    0 <= k < p.len() && is_added_row(#[trigger] p[k]) ==> q <= k < q + new.len())
        }),
{
    let p = spec_preview(old, new, start, end);
    let h = preview_header(start as nat, end as nat, new.len());
    let b = preview_before(old, start);
    let r = preview_removed(old, start, end);
    let a = preview_added(new, start);
    let af = preview_after(old, end);
    let q: int = 3 + b.len() as int + r.len() as int;
    assert(p == h + b + r + a + af);
    reveal_strlit("--- original (lines ");
    reveal_strlit("+++ modified (");
    reveal_strlit(" ...");
    reveal_strlit(" ");
    reveal_strlit("-");
    reveal_strlit("+");
    assert forall|j: int| 0 <= j < new.len() implies p[q + j] == "+"@ + decimal((start + j) as nat) + "| "@
        + trim_newlines(#[trigger] new[j]) && is_added_row(p[q + j]) by {
        assert(p[q + j] == a[j]);
        lemma_decimal_starts_with_digit((start + j) as nat);
    }
    assert forall|k: int| 0 <= k < p.len() && is_added_row(#[trigger] p[k]) implies q <= k < q + new.len() by {
        let q0: int = 3 + b.len() as int;
        if k < 3 {
            assert(p[k] == h[k]);
            if k == 0 {
                assert(h[0][0] == '-');
            } else if k == 1 {
                assert(h[1][1] == '+');
                assert(!is_digit('+'));
            }
        } else if k < q0 {
            assert(p[k] == b[k - 3]);
            let i = k - 3;
            let cb = if start >= 3 { start - 3 } else { 0 };
            let hi = min_int(start - 1, old.len() as int);
            let m = if hi > cb { hi - cb } else { 0 };
            if i < m {
                assert(b[i] == numbered(" "@, (cb + 1) as nat, " | "@, old[cb + i]));
                assert(b[i][0] == ' ');
            } else {
                assert(b[i] == " ..."@);
            }
        } else if k < q {
            assert(p[k] == r[k - q0]);
            assert(r[k - q0][0] == '-');
        } else if k >= q + new.len() {
            let u = k - q - new.len();
            assert(p[k] == af[u]);
            let se = min_int(end, old.len() as int);
            if u == 0 {
                assert(af[0] == " ..."@);
            } else {
                assert(af[u] == numbered(" "@, (se + 1) as nat, " | "@, old[se + u - 1]));
                assert(af[u][0] == ' ');
            }
        }
    }
    assert(p[q] == p[q]);
}

/// The line without its trailing newlines.
fn trim_newlines_exec(line: &str) -> (r: String)
    ensures
        r@ == trim_newlines(line@),
{
    let v = chars_of(line);
    let mut t: usize = 0;
    while t < v.len() && v[v.len() - 1 - t] == '\n'
        invariant
            t <= v@.len(),
            forall|j: int| v@.len() - t <= j < v@.len() ==> #[trigger] v@[j] == '\n',
        decreases v.len() - t,
    {
        t = t + 1;
    }
    proof {
        crate::text::lemma_trail_len(v@, |c: char| c == '\n', t as int);
    }
    string_of_range(&v, 0, v.len() - t)
}

/// Builds one numbered preview line.
fn numbered_line(prefix: &str, n: usize, sep: &str, line: &str) -> (r: String)
    ensures
        r@ == numbered(prefix@, n as nat, sep@, line@),
{
    let mut r = copy_str(prefix);
    push_decimal(&mut r, n as u64);
    push_str(&mut r, sep);
    let body = trim_newlines_exec(line);
    push_str(&mut r, body.as_str());
    r
}

/// Generates a preview showing before/after for a dry run.
pub fn generate_preview(old_lines: &[String], new_lines: &[String], start: usize, end: usize) -> (r:
    Vec<String>)
    requires
        start >= 1,
        start - 1 + new_lines@.len() <= usize::MAX,
    ensures
        strs(r@) == spec_preview(strs(old_lines@), strs(new_lines@), start as int, end as int),
{
    let ghost old = strs(old_lines@);
    let ghost new = strs(new_lines@);
    let mut preview: Vec<String> = Vec::new();
    let mut h1 = copy_str("--- original (lines ");
    push_decimal(&mut h1, start as u64);
    push_str(&mut h1, "-");
    push_decimal(&mut h1, end as u64);
    push_str(&mut h1, ")");
    preview.push(h1);
    let mut h2 = copy_str("+++ modified (");
    push_decimal(&mut h2, new_lines.len() as u64);
    push_str(&mut h2, " lines)");
    preview.push(h2);
    preview.push(String::new());
    proof {
        assert(strs(preview@) =~= preview_header(start as nat, end as nat, new.len()));
    }
    let ghost acc0 = strs(preview@);
    // Context before.
    let ctx_before: usize = if start >= 3 {
        start - 3
    } else {
        0
    };
    let hi: usize = if start - 1 <= old_lines.len() {
        start - 1
    } else {
        old_lines.len()
    };
    let mut i = ctx_before;
    while i < hi
        invariant
            hi <= old_lines@.len(),
            hi == min_int(start - 1, old_lines@.len() as int),
            ctx_before == (if start >= 3 { start - 3 } else { 0 }),
            ctx_before <= i,
            i <= hi || i == ctx_before,
            old == strs(old_lines@),
            strs(preview@) == acc0 + Seq::new(
                (i - ctx_before) as nat,
                |j: int| numbered(" "@, (ctx_before + 1) as nat, " | "@, old[ctx_before + j]),
            ),
        decreases hi - i,
    {
        let l = numbered_line(" ", ctx_before + 1, " | ", old_lines[i].as_str());
        let ghost before = strs(preview@);
        preview.push(l);
        proof {
            assert(strs(preview@) =~= before.push(l@));
            assert(Seq::new(
                (i + 1 - ctx_before) as nat,
                |j: int| numbered(" "@, (ctx_before + 1) as nat, " | "@, old[ctx_before + j]),
            ) =~= Seq::new(
                (i - ctx_before) as nat,
                |j: int| numbered(" "@, (ctx_before + 1) as nat, " | "@, old[ctx_before + j]),
            ).push(l@));
        }
        i = i + 1;
    }
    let ghost ctx = Seq::new(
        (i - ctx_before) as nat,
        |j: int| numbered(" "@, (ctx_before + 1) as nat, " | "@, old[ctx_before + j]),
    );
    assert(ctx == Seq::new(
        (if hi > ctx_before { hi - ctx_before } else { 0 }) as nat,
        |j: int| numbered(" "@, (ctx_before + 1) as nat, " | "@, old[ctx_before + j]),
    ));
    if ctx_before < start - 1 {
        let dots = copy_str(" ...");
        let ghost before = strs(preview@);
        preview.push(dots);
        proof {
            assert(strs(preview@) =~= before.push(" ..."@));
            assert(strs(preview@) =~= acc0 + (ctx + seq![" ..."@]));
        }
    } else {
        assert(strs(preview@) =~= acc0 + (ctx + Seq::<Seq<char>>::empty()));
    }
    proof {
        assert(strs(preview@) =~= acc0 + preview_before(old, start as int));
    }
    let ghost acc1 = strs(preview@);
    // The range itself.
    let splice_start = start - 1;
    let splice_end: usize = if end <= old_lines.len() {
        end
    } else {
        old_lines.len()
    };
    let mut idx = splice_start;
    while idx < splice_end
        invariant
            splice_start == start - 1,
            splice_end <= old_lines@.len(),
            splice_start <= idx <= splice_end || (splice_end < splice_start && idx == splice_start),
            old == strs(old_lines@),
            strs(preview@) == acc1 + Seq::new(
                (idx - splice_start) as nat,
                |j: int| numbered("-"@, (start + j) as nat, "| "@, old[start - 1 + j]),
            ),
        decreases splice_end - idx,
    {
        let l = numbered_line("-", idx + 1, "| ", old_lines[idx].as_str());
        let ghost before = strs(preview@);
        preview.push(l);
        proof {
            assert(strs(preview@) =~= before.push(l@));
            assert(Seq::new(
                (idx + 1 - splice_start) as nat,
                |j: int| numbered("-"@, (start + j) as nat, "| "@, old[start - 1 + j]),
            ) =~= Seq::new(
                (idx - splice_start) as nat,
                |j: int| numbered("-"@, (start + j) as nat, "| "@, old[start - 1 + j]),
            ).push(l@));
        }
        idx = idx + 1;
    }
    proof {
        assert(strs(preview@) =~= acc1 + preview_removed(old, start as int, end as int));
    }
    let ghost acc2 = strs(preview@);
    // The new lines.
    let mut k: usize = 0;
    while k < new_lines.len()
        invariant
            k <= new_lines@.len(),
            start - 1 + new_lines@.len() <= usize::MAX,
            new == strs(new_lines@),
            strs(preview@) == acc2 + Seq::new(k as nat, |i: int| numbered("+"@, (start + i) as nat, "| "@, new[i])),
        decreases new_lines.len() - k,
    {
        let l = numbered_line("+", start + k, "| ", new_lines[k].as_str());
        let ghost before = strs(preview@);
        preview.push(l);
        proof {
            assert(strs(preview@) =~= before.push(l@));
            assert(Seq::new((k + 1) as nat, |i: int| numbered("+"@, (start + i) as nat, "| "@, new[i]))
                =~= Seq::new(k as nat, |i: int| numbered("+"@, (start + i) as nat, "| "@, new[i])).push(l@));
        }
        k = k + 1;
    }
    proof {
        assert(strs(preview@) =~= acc2 + preview_added(new, start as int));
    }
    let ghost acc3 = strs(preview@);
    // Context after.
    if splice_end < old_lines.len() {
        let ctx_after: usize = if old_lines.len() - splice_end > 3 {
            splice_end + 3
        } else {
            old_lines.len()
        };
        preview.push(copy_str(" ..."));
        let ghost acc4 = strs(preview@);
        let mut i = splice_end;
        while i < ctx_after
            invariant
                splice_end < ctx_after <= old_lines@.len(),
                splice_end <= i <= ctx_after,
                old == strs(old_lines@),
                strs(preview@) == acc4 + Seq::new(
                    (i - splice_end) as nat,
                    |j: int| numbered(" "@, (splice_end + 1) as nat, " | "@, old[splice_end + j]),
                ),
            decreases ctx_after - i,
        {
            let l = numbered_line(" ", splice_end + 1, " | ", old_lines[i].as_str());
            let ghost before = strs(preview@);
            preview.push(l);
            proof {
                assert(strs(preview@) =~= before.push(l@));
                assert(Seq::new(
                    (i + 1 - splice_end) as nat,
                    |j: int| numbered(" "@, (splice_end + 1) as nat, " | "@, old[splice_end + j]),
                ) =~= Seq::new(
                    (i - splice_end) as nat,
                    |j: int| numbered(" "@, (splice_end + 1) as nat, " | "@, old[splice_end + j]),
                ).push(l@));
            }
            i = i + 1;
        }
    }
    proof {
        assert(strs(preview@) =~= acc3 + preview_after(old, end as int));
    }
    preview
}

} // verus!
