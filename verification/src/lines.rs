//! Lines of text: `split_inclusive('\n')`, `str::lines`, joining, and the
//! file rendering that an atomic write performs.
use vstd::prelude::*;
use crate::text::{chars_of, push_char};

verus! {

/// The contents of a sequence of `String`s.
pub open spec fn strs(v: Seq<String>) -> Seq<Seq<char>> {
    v.map_values(|s: String| s@)
}

/// `s.split_inclusive('\n')`: the lines of `s`, each keeping its `'\n'`.
pub open spec fn split_lines(s: Seq<char>) -> Seq<Seq<char>>
    decreases s.len(),
{
    if s.len() == 0 {
        seq![]
    } else {
        let init = split_lines(s.drop_last());
        if init.len() == 0 || init.last().last() == '\n' {
            init.push(seq![s.last()])
        } else {
            init.update(init.len() - 1, init.last().push(s.last()))
        }
    }
}

/// The concatenation of a sequence of lines.
pub open spec fn concat(ls: Seq<Seq<char>>) -> Seq<char>
    decreases ls.len(),
{
    if ls.len() == 0 {
        seq![]
    } else {
        concat(ls.drop_last()) + ls.last()
    }
}

/// The lines joined with `"\n"` between them (`[..].join("\n")`).
pub open spec fn join_nl(ls: Seq<Seq<char>>) -> Seq<char>
    decreases ls.len(),
{
    if ls.len() == 0 {
        seq![]
    } else if ls.len() == 1 {
        ls[0]
    } else {
        join_nl(ls.drop_last()) + seq!['\n'] + ls.last()
    }
}

/// A line with no `'\n'` anywhere.
pub open spec fn no_newline(l: Seq<char>) -> bool {
    forall|j: int| 0 <= j < l.len() ==> #[trigger] l[j] != '\n'
}

/// The pieces of `s` between its `'\n'` characters (`str::split('\n')`):
/// one more piece than there are newlines.
pub open spec fn split_nl(s: Seq<char>) -> Seq<Seq<char>>
    decreases s.len(),
{
    if s.len() == 0 {
        seq![seq![]]
    } else {
        let rest = split_nl(s.drop_last());
        if s.last() == '\n' {
            rest.push(seq![])
        } else {
            rest.update(rest.len() - 1, rest.last().push(s.last()))
        }
    }
}

/// Appending text with no newline extends the last piece.
proof fn lemma_split_nl_extend(a: Seq<char>, b: Seq<char>)
    requires
        no_newline(b),
    ensures
        split_nl(a + b).len() == split_nl(a).len(),
        split_nl(a).len() >= 1,
        split_nl(a + b) == split_nl(a).update(split_nl(a).len() - 1, split_nl(a).last() + b),
    decreases b.len(),
{
    reveal_with_fuel(split_nl, 2);
    if a.len() > 0 {
        lemma_split_nl_len(a.drop_last());
    }
    if b.len() == 0 {
        assert(a + b =~= a);
        assert(split_nl(a).last() + b =~= split_nl(a).last());
        assert(split_nl(a).update(split_nl(a).len() - 1, split_nl(a).last()) =~= split_nl(a));
    } else {
        let b0 = b.drop_last();
        assert(no_newline(b0)) by {
            assert forall|j: int| 0 <= j < b0.len() implies #[trigger] b0[j] != '\n' by {
                assert(b0[j] == b[j]);
            }
        }
        lemma_split_nl_extend(a, b0);
        assert((a + b).drop_last() =~= a + b0);
        assert((a + b).last() == b.last());
        assert(b.last() == b[b.len() - 1]);
        assert(split_nl(a).last() + b =~= (split_nl(a).last() + b0).push(b.last()));
        assert(split_nl(a + b) =~= split_nl(a).update(split_nl(a).len() - 1, split_nl(a).last() + b));
    }
}

proof fn lemma_split_nl_len(s: Seq<char>)
    ensures
        split_nl(s).len() >= 1,
    decreases s.len(),
{
    if s.len() > 0 {
        lemma_split_nl_len(s.drop_last());
    }
}

/// A line whose only `'\n'`, if any, is its last character.
pub open spec fn newline_only_last(l: Seq<char>) -> bool {
    forall|j: int| 0 <= j < l.len() - 1 ==> #[trigger] l[j] != '\n'
}

/// The pieces one line leaves when its text is split at newlines: a line
/// ending in `'\n'` leaves the line without it and an empty piece.
pub open spec fn line_pieces(l: Seq<char>) -> Seq<Seq<char>> {
    if l.len() > 0 && l.last() == '\n' {
        seq![l.drop_last(), seq![]]
    } else {
        seq![l]
    }
}

/// The pieces of all the lines, in order.
pub open spec fn all_pieces(ls: Seq<Seq<char>>) -> Seq<Seq<char>>
    decreases ls.len(),
{
    if ls.len() == 0 {
        seq![]
    } else {
        all_pieces(ls.drop_last()) + line_pieces(ls.last())
    }
}

proof fn lemma_split_nl_line(a: Seq<char>, l: Seq<char>)
    requires
        newline_only_last(l),
    ensures
        split_nl(a + l) == split_nl(a).take(split_nl(a).len() - 1) + seq![split_nl(a).last() + line_pieces(l)[0]]
            + line_pieces(l).drop_first(),
{
    lemma_split_nl_len(a);
    if l.len() > 0 && l.last() == '\n' {
        let x = l.drop_last();
        assert(no_newline(x)) by {
            assert forall|j: int| 0 <= j < x.len() implies #[trigger] x[j] != '\n' by {
                assert(x[j] == l[j]);
            }
        }
        lemma_split_nl_extend(a, x);
        assert((a + l).drop_last() =~= a + x);
        assert((a + l).last() == '\n');
        let sa = split_nl(a);
        assert(sa.update(sa.len() - 1, sa.last() + x) =~= sa.take(sa.len() - 1) + seq![sa.last() + x]);
        assert(line_pieces(l).drop_first() =~= seq![Seq::<char>::empty()]);
    } else {
        assert(no_newline(l)) by {
            assert forall|j: int| 0 <= j < l.len() implies #[trigger] l[j] != '\n' by {
                if j < l.len() - 1 {
                } else {
                    assert(l[j] == l.last());
                }
            }
        }
        lemma_split_nl_extend(a, l);
        let sa = split_nl(a);
        assert(sa.update(sa.len() - 1, sa.last() + l) =~= sa.take(sa.len() - 1) + seq![sa.last() + l]);
        assert(line_pieces(l).drop_first() =~= Seq::<Seq<char>>::empty());
    }
}

/// Splitting lines joined with `"\n"` at `'\n'` gives their pieces: each
/// line, and for a line ending in `'\n'` that line without it followed by
/// an empty piece.
pub proof fn lemma_split_join_nl_pieces(ls: Seq<Seq<char>>)
    requires
        ls.len() >= 1,
        forall|k: int| 0 <= k < ls.len() ==> newline_only_last(#[trigger] ls[k]),
    ensures
        split_nl(join_nl(ls)) == all_pieces(ls),
    decreases ls.len(),
{
    let l = ls.last();
    assert(newline_only_last(ls[ls.len() - 1]));
    if ls.len() == 1 {
        lemma_split_nl_line(seq![], l);
        assert(Seq::<char>::empty() + l =~= l);
        assert(ls.drop_last() =~= Seq::<Seq<char>>::empty());
        assert(all_pieces(ls.drop_last()) == Seq::<Seq<char>>::empty());
        let sa = split_nl(Seq::<char>::empty());
        assert(sa == seq![Seq::<char>::empty()]);
        assert(Seq::<char>::empty() + line_pieces(l)[0] =~= line_pieces(l)[0]);
        assert(sa.take(0) =~= Seq::<Seq<char>>::empty());
        assert(seq![line_pieces(l)[0]] + line_pieces(l).drop_first() =~= line_pieces(l));
        assert(split_nl(join_nl(ls)) =~= all_pieces(ls));
    } else {
        let init = ls.drop_last();
        assert forall|k: int| 0 <= k < init.len() implies newline_only_last(#[trigger] init[k]) by {
            assert(init[k] == ls[k]);
        }
        lemma_split_join_nl_pieces(init);
        let a = join_nl(init) + seq!['\n'];
        assert(a.drop_last() =~= join_nl(init));
        let sa = split_nl(a);
        assert(sa == all_pieces(init).push(seq![]));
        lemma_split_nl_line(a, l);
        assert(sa.take(sa.len() - 1) =~= all_pieces(init));
        assert(Seq::<char>::empty() + line_pieces(l)[0] =~= line_pieces(l)[0]);
        assert(seq![line_pieces(l)[0]] + line_pieces(l).drop_first() =~= line_pieces(l));
        assert(split_nl(join_nl(ls)) =~= all_pieces(init) + line_pieces(l));
    }
}

/// The shape of `split_inclusive('\n')` output: non-empty lines, every line
/// but the last ends in `'\n'`, and no line holds a `'\n'` before its end.
pub open spec fn well_split(ls: Seq<Seq<char>>) -> bool {
    &&& forall|k: int| 0 <= k < ls.len() ==> #[trigger] ls[k].len() > 0
    &&& forall|k: int| 0 <= k < ls.len() - 1 ==> #[trigger] ls[k].last() == '\n'
    &&& forall|k: int| 0 <= k < ls.len() ==> no_newline(#[trigger] ls[k].drop_last())
}

/// `split_lines` gives back the text when concatenated, and has the split shape.
pub proof fn lemma_split_lines(s: Seq<char>)
    ensures
        concat(split_lines(s)) == s,
        well_split(split_lines(s)),
        split_lines(s).len() == 0 <==> s.len() == 0,
        s.len() > 0 ==> split_lines(s).last().last() == s.last(),
    decreases s.len(),
{
    if s.len() > 0 {
        let t = s.drop_last();
        lemma_split_lines(t);
        let init = split_lines(t);
        let c = s.last();
        if init.len() == 0 || init.last().last() == '\n' {
            let r = init.push(seq![c]);
            assert(r.drop_last() == init);
            assert(concat(r) == concat(init) + seq![c]);
            assert(s == t + seq![c]);
            assert forall|k: int| 0 <= k < r.len() implies no_newline(#[trigger] r[k].drop_last()) by {
                if k < init.len() {
                    assert(r[k] == init[k]);
                }
            }
        } else {
            let last = init.last();
            let r = init.update(init.len() - 1, last.push(c));
            assert(r.drop_last() == init.drop_last());
            assert(concat(init) == concat(init.drop_last()) + last);
            assert(concat(r) == concat(init.drop_last()) + last.push(c));
            assert(s == t + seq![c]);
            assert(last.push(c) == last + seq![c]);
            assert forall|k: int| 0 <= k < r.len() implies no_newline(#[trigger] r[k].drop_last()) by {
                if k < init.len() - 1 {
                    assert(r[k] == init[k]);
                } else {
                    assert(r[k].drop_last() == last);
                    assert(no_newline(last.drop_last()));
                    assert forall|j: int| 0 <= j < last.len() implies #[trigger] last[j] != '\n' by {
                        if j < last.len() - 1 {
                            assert(last[j] == last.drop_last()[j]);
                        }
                    }
                }
            }
            assert forall|k: int| 0 <= k < r.len() - 1 implies #[trigger] r[k].last() == '\n' by {
                assert(r[k] == init[k]);
            }
        }
    }
}

/// `concat` distributes over `+`.
pub proof fn lemma_concat_append(a: Seq<Seq<char>>, b: Seq<Seq<char>>)
    ensures
        concat(a + b) == concat(a) + concat(b),
    decreases b.len(),
{
    if b.len() == 0 {
        assert(a + b == a);
    } else {
        lemma_concat_append(a, b.drop_last());
        assert((a + b).drop_last() == a + b.drop_last());
        assert((a + b).last() == b.last());
    }
}

/// The lines of `s` as owned strings (`s.split_inclusive('\n').map(String::from).collect()`).
pub fn split_lines_exec(s: &str) -> (res: Vec<String>)
    ensures
        strs(res@) == split_lines(s@),
{
    let v = chars_of(s);
    let mut lines: Vec<String> = Vec::new();
    let mut cur = String::new();
    let mut i: usize = 0;
    proof {
        assert(v@.take(0) =~= Seq::<char>::empty());
    }
    while i < v.len()
        invariant
            i <= v@.len(),
            v@ == s@,
            no_newline(cur@),
            forall|k: int| 0 <= k < lines@.len() ==> (#[trigger] lines@[k])@.len() > 0
                && lines@[k]@.last() == '\n',
            split_lines(v@.take(i as int)) == if cur@.len() == 0 {
                strs(lines@)
            } else {
                strs(lines@).push(cur@)
            },
        decreases v.len() - i,
    {
        let c = v[i];
        let ghost old_lines = lines@;
        let ghost old_cur = cur@;
        proof {
            assert(v@.take(i + 1).drop_last() == v@.take(i as int));
            assert(v@.take(i + 1).last() == c);
        }
        push_char(&mut cur, c);
        if c == '\n' {
            lines.push(cur);
            cur = String::new();
            proof {
                assert(strs(lines@) == strs(old_lines).push(old_cur.push(c)));
                if old_cur.len() > 0 {
                    assert(old_cur.last() != '\n');
                    assert(strs(old_lines).push(old_cur).last() == old_cur);
                    assert(strs(old_lines).push(old_cur).update(old_lines.len() as int, old_cur.push(c))
                        == strs(old_lines).push(old_cur.push(c)));
                } else {
                    assert(old_cur.push(c) == seq![c]);
                    if old_lines.len() > 0 {
                        assert(strs(old_lines).last() == old_lines.last()@);
                    }
                }
            }
        } else {
            proof {
                assert forall|j: int| 0 <= j < cur@.len() implies #[trigger] cur@[j] != '\n' by {
                    if j < old_cur.len() {
                        assert(cur@[j] == old_cur[j]);
                    }
                }
                if old_cur.len() > 0 {
                    assert(old_cur.last() != '\n');
                    assert(strs(old_lines).push(old_cur).update(old_lines.len() as int, old_cur.push(c))
                        == strs(old_lines).push(old_cur.push(c)));
                } else {
                    assert(old_cur.push(c) == seq![c]);
                    if old_lines.len() > 0 {
                        assert(strs(old_lines).last() == old_lines.last()@);
                    }
                }
            }
        }
        i = i + 1;
    }
    proof {
        assert(v@.take(v@.len() as int) == v@);
    }
    if !cur.as_str().is_empty() {
        let ghost old_lines = lines@;
        lines.push(cur);
        proof {
            assert(strs(lines@) == strs(old_lines).push(cur@));
        }
    }
    lines
}

/// What `str::lines` yields for one `split_inclusive` piece: the `"\n"` or
/// `"\r\n"` ending removed.
pub open spec fn strip_line_end(l: Seq<char>) -> Seq<char> {
    if l.len() > 0 && l.last() == '\n' {
        let m = l.drop_last();
        if m.len() > 0 && m.last() == '\r' {
            m.drop_last()
        } else {
            m
        }
    } else {
        l
    }
}

/// `s.lines()`.
pub open spec fn str_lines(s: Seq<char>) -> Seq<Seq<char>> {
    split_lines(s).map_values(|l: Seq<char>| strip_line_end(l))
}

/// The lines of `s` as `str::lines` gives them, with line endings removed.
pub fn str_lines_exec(s: &str) -> (res: Vec<Vec<char>>)
    ensures
        res@.map_values(|l: Vec<char>| l@) == str_lines(s@),
{
    let pieces = split_lines_exec(s);
    let mut res: Vec<Vec<char>> = Vec::new();
    let mut k: usize = 0;
    while k < pieces.len()
        invariant
            k <= pieces@.len(),
            strs(pieces@) == split_lines(s@),
            res@.map_values(|l: Vec<char>| l@) == strs(pieces@).take(k as int).map_values(
                |l: Seq<char>| strip_line_end(l),
            ),
        decreases pieces.len() - k,
    {
        let v = chars_of(pieces[k].as_str());
        let mut n = v.len();
        if n > 0 && v[n - 1] == '\n' {
            n = n - 1;
            if n > 0 && v[n - 1] == '\r' {
                n = n - 1;
            }
        }
        let mut line: Vec<char> = Vec::new();
        let mut j: usize = 0;
        while j < n
            invariant
                j <= n <= v@.len(),
                line@ == v@.take(j as int),
            decreases n - j,
        {
            line.push(v[j]);
            j = j + 1;
        }
        let ghost before = res@;
        res.push(line);
        proof {
            assert(v@ == strs(pieces@)[k as int]);
            assert(line@ =~= strip_line_end(v@));
            assert(strs(pieces@).take(k + 1) == strs(pieces@).take(k as int).push(v@));
            assert(res@.map_values(|l: Vec<char>| l@) =~= before.map_values(|l: Vec<char>| l@).push(line@));
            assert(strs(pieces@).take(k + 1).map_values(|l: Seq<char>| strip_line_end(l))
                =~= strs(pieces@).take(k as int).map_values(|l: Seq<char>| strip_line_end(l)).push(
                strip_line_end(v@),
            ));
        }
        k = k + 1;
    }
    proof {
        assert(strs(pieces@).take(pieces@.len() as int) == strs(pieces@));
    }
    res
}

/// Builds `join_nl` of the given lines.
pub fn join_nl_exec(ls: &Vec<Vec<char>>) -> (res: String)
    ensures
        res@ == join_nl(ls@.map_values(|l: Vec<char>| l@)),
{
    let ghost lv = ls@.map_values(|l: Vec<char>| l@);
    let mut res = String::new();
    let mut k: usize = 0;
    while k < ls.len()
        invariant
            k <= ls@.len(),
            lv == ls@.map_values(|l: Vec<char>| l@),
            res@ == join_nl(lv.take(k as int)),
        decreases ls.len() - k,
    {
        let ghost before = res@;
        if k > 0 {
            push_char(&mut res, '\n');
        }
        let line = &ls[k];
        let mut j: usize = 0;
        let ghost mid = res@;
        while j < line.len()
            invariant
                j <= line@.len(),
                res@ == mid + line@.take(j as int),
            decreases line.len() - j,
        {
            push_char(&mut res, line[j]);
            proof {
                assert(line@.take(j + 1) == line@.take(j as int).push(line@[j as int]));
            }
            j = j + 1;
        }
        proof {
            assert(line@.take(line@.len() as int) == line@);
            let t = lv.take(k + 1);
            assert(t.drop_last() == lv.take(k as int));
            assert(t.last() == line@);
            if k == 0 {
                assert(t.len() == 1);
                assert(mid == Seq::<char>::empty());
                assert(res@ == line@);
            } else {
                assert(mid == before + seq!['\n']);
            }
        }
        k = k + 1;
    }
    proof {
        assert(lv.take(ls@.len() as int) == lv);
    }
    res
}

// ---------------------------------------------------------------------------
// Rendering a file from its lines
// ---------------------------------------------------------------------------

/// A line with one trailing `'\n'` removed, if it has one.
pub open spec fn strip_nl(l: Seq<char>) -> Seq<char> {
    if l.len() > 0 && l.last() == '\n' {
        l.drop_last()
    } else {
        l
    }
}

/// The file an atomic write produces from `lines`: each line loses one
/// trailing newline, the lines are joined with newlines, and the last line
/// gets a newline only when the file as read ended with one.
pub open spec fn render_file(lines: Seq<Seq<char>>, trailing_newline: bool) -> Seq<char> {
    if lines.len() == 0 {
        seq![]
    } else {
        join_nl(lines.map_values(|l: Seq<char>| strip_nl(l))) + if trailing_newline {
            seq!['\n']
        } else {
            seq![]
        }
    }
}

/// The contents an atomic write puts in the file for the given lines.
pub fn render_file_exec(lines: &Vec<String>, trailing_newline: bool) -> (res: String)
    ensures
        res@ == render_file(strs(lines@), trailing_newline),
{
    let mut stripped: Vec<Vec<char>> = Vec::new();
    let mut k: usize = 0;
    while k < lines.len()
        invariant
            k <= lines@.len(),
            stripped@.map_values(|l: Vec<char>| l@) == strs(lines@).take(k as int).map_values(
                |l: Seq<char>| strip_nl(l),
            ),
        decreases lines.len() - k,
    {
        let v = chars_of(lines[k].as_str());
        let mut n = v.len();
        if n > 0 && v[n - 1] == '\n' {
            n = n - 1;
        }
        let mut line: Vec<char> = Vec::new();
        let mut j: usize = 0;
        while j < n
            invariant
                j <= n <= v@.len(),
                line@ == v@.take(j as int),
            decreases n - j,
        {
            line.push(v[j]);
            j = j + 1;
        }
        let ghost before = stripped@;
        stripped.push(line);
        proof {
            assert(v@ == strs(lines@)[k as int]);
            assert(line@ =~= strip_nl(v@));
            assert(strs(lines@).take(k + 1) == strs(lines@).take(k as int).push(v@));
            assert(stripped@.map_values(|l: Vec<char>| l@) =~= before.map_values(|l: Vec<char>| l@).push(line@));
            assert(strs(lines@).take(k + 1).map_values(|l: Seq<char>| strip_nl(l))
                =~= strs(lines@).take(k as int).map_values(|l: Seq<char>| strip_nl(l)).push(
                strip_nl(v@),
            ));
        }
        k = k + 1;
    }
    proof {
        assert(strs(lines@).take(lines@.len() as int) == strs(lines@));
    }
    let mut res = join_nl_exec(&stripped);
    if lines.len() > 0 && trailing_newline {
        push_char(&mut res, '\n');
    }
    proof {
        if lines.len() > 0 && !trailing_newline {
            assert(res@ + Seq::<char>::empty() == res@);
        }
    }
    res
}

/// Whether the text ends with a newline (what decides the last line's newline).
pub open spec fn ends_with_newline(s: Seq<char>) -> bool {
    s.len() > 0 && s.last() == '\n'
}

/// Rendering the lines of a file, with the file's own trailing-newline
/// state, gives back the file: reading a file into lines and writing them
/// back unchanged leaves it as it was.
pub proof fn law_render_split_roundtrip(s: Seq<char>)
    ensures
        render_file(split_lines(s), ends_with_newline(s)) == s,
    decreases s.len(),
{
    lemma_split_lines(s);
    let ls = split_lines(s);
    if ls.len() > 0 {
        lemma_join_stripped(ls);
        let j = join_nl(ls.map_values(|l: Seq<char>| strip_nl(l)));
        if ends_with_newline(s) {
            assert(ls.last().last() == '\n');
            assert(j + seq!['\n'] == concat(ls));
        } else {
            assert(ls.last().last() != '\n');
            assert(strip_nl(ls.last()) == ls.last());
            assert(j + Seq::<char>::empty() == j);
        }
    }
}

/// Joining the stripped lines of a split with newlines gives the text without
/// its final newline (if any).
proof fn lemma_join_stripped(ls: Seq<Seq<char>>)
    requires
        well_split(ls),
        ls.len() > 0,
    ensures
        join_nl(ls.map_values(|l: Seq<char>| strip_nl(l))) + (if ls.last().last() == '\n' {
            seq!['\n']
        } else {
            seq![]
        }) == concat(ls),
    decreases ls.len(),
{
    let m = ls.map_values(|l: Seq<char>| strip_nl(l));
    let last = ls.last();
    assert(last.len() > 0);
    if ls.len() == 1 {
        assert(concat(ls) == concat(ls.drop_last()) + last);
        assert(concat(ls.drop_last()) == Seq::<char>::empty());
        if last.last() == '\n' {
            assert(strip_nl(last) + seq!['\n'] =~= last);
        } else {
            assert(strip_nl(last) + Seq::<char>::empty() =~= last);
        }
    } else {
        let init = ls.drop_last();
        assert forall|k: int| 0 <= k < init.len() implies #[trigger] init[k].len() > 0 by {
            assert(init[k] == ls[k]);
        }
        assert forall|k: int| 0 <= k < init.len() - 1 implies #[trigger] init[k].last() == '\n' by {
            assert(init[k] == ls[k]);
        }
        assert forall|k: int| 0 <= k < init.len() implies no_newline(#[trigger] init[k].drop_last()) by {
            assert(init[k] == ls[k]);
        }
        lemma_join_stripped(init);
        assert(init.last() == ls[ls.len() - 2]);
        assert(init.last().last() == '\n');
        assert(m.drop_last() =~= init.map_values(|l: Seq<char>| strip_nl(l)));
        let ji = join_nl(init.map_values(|l: Seq<char>| strip_nl(l)));
        assert(ji + seq!['\n'] == concat(init));
        assert(concat(ls) == concat(init) + last);
        assert(join_nl(m) == ji + seq!['\n'] + strip_nl(last));
        if last.last() == '\n' {
            assert(strip_nl(last) + seq!['\n'] =~= last);
            assert(join_nl(m) + seq!['\n'] =~= ji + seq!['\n'] + (strip_nl(last) + seq!['\n']));
        } else {
            assert(strip_nl(last) == last);
            assert(join_nl(m) + Seq::<char>::empty() =~= ji + seq!['\n'] + last);
        }
    }
}

} // verus!

verus! {

/// The characters of each line.
pub fn char_lines(lines: &[String]) -> (res: Vec<Vec<char>>)
    ensures
        res@.map_values(|l: Vec<char>| l@) == strs(lines@),
{
    let mut res: Vec<Vec<char>> = Vec::new();
    let mut k: usize = 0;
    while k < lines.len()
        invariant
            k <= lines@.len(),
            res@.map_values(|l: Vec<char>| l@) == strs(lines@).take(k as int),
        decreases lines.len() - k,
    {
        let v = chars_of(lines[k].as_str());
        let ghost before = res@;
        res.push(v);
        proof {
            assert(res@.map_values(|l: Vec<char>| l@) =~= before.map_values(|l: Vec<char>| l@).push(v@));
            assert(strs(lines@).take(k + 1) =~= strs(lines@).take(k as int).push(lines@[k as int]@));
        }
        k = k + 1;
    }
    assert(strs(lines@).take(lines@.len() as int) =~= strs(lines@));
    res
}

} // verus!
