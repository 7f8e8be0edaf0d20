//! Indentation detection and auto-correction.
//!
//! Handles LLM-generated code with inconsistent spacing, mixed tabs/spaces,
//! off-by-one anomalies, and missing context:
//! - Statistical mode, not min: finds the most common indent step.
//! - Supermajority for tabs vs spaces: more than 80% of indented lines must
//!   use tabs before the style flips to tabs.
//! - Backward scan with anomaly rejection: walks back up to 20 lines to find
//!   a reliable context line.
//! - Brace/colon/continuation awareness: `{`, `}`, `:`, `(`, `[` all affect
//!   the expected level.
//! - Round-to-nearest for off-by-one: 7 spaces in a 4-space file is level 2.
use vstd::prelude::*;
use std::collections::HashMap;
use crate::text::{
    all_ws, lead_ws, lead_spaces, lead_tabs, chars_of, is_blank, count_leading_spaces,
    count_leading_tabs, count_leading_ws, push_repeat, repeat_char,
};
use crate::lines::{
    strs, char_lines, join_nl, join_nl_exec, str_lines, str_lines_exec, split_nl, newline_only_last,
    all_pieces, lemma_split_join_nl_pieces,
};
use crate::num::{decimal, push_decimal};
use crate::text::{lemma_lead_len, copy_str, push_str, trim_start, find, find_exec, lemma_find_some, trim_end, count_trailing_ws, lemma_lead_len_bounds, lemma_trail_len_bound, is_ws};

verus! {

broadcast use vstd::std_specs::hash::group_hash_axioms;

/// The indentation style detected from context.
#[derive(Debug, Clone, PartialEq, Eq, Structural)]
pub struct IndentStyle {
    /// Number of spaces per indent level (0 if using tabs).
    pub spaces: usize,
    /// Whether this file uses tab indentation.
    pub uses_tabs: bool,
    /// Visual width of one indent level.
    pub width: usize,
}

impl Default for IndentStyle {
    fn default() -> (r: Self)
        ensures
            r == IndentStyle::spec_default(),
    {
        IndentStyle { spaces: 4, uses_tabs: false, width: 4 }
    }
}

/// The indentation string for a nesting level in a style.
pub open spec fn spec_indent_string(spaces: nat, uses_tabs: bool, level: nat) -> Seq<char> {
    if uses_tabs {
        repeat_char('\t', level)
    } else {
        repeat_char(' ', spaces * level)
    }
}

impl IndentStyle {
    pub open spec fn spec_default() -> IndentStyle {
        IndentStyle { spaces: 4, uses_tabs: false, width: 4 }
    }

    /// Whether `indent_string(level)` can be built without overflowing a `usize`.
    pub open spec fn indent_fits(&self, level: nat) -> bool {
        self.uses_tabs || self.spaces * level <= usize::MAX
    }

    /// Returns the indentation string for a given nesting level: `level` tabs,
    /// or `spaces * level` spaces.
    pub fn indent_string(&self, level: usize) -> (r: String)
        requires
            self.indent_fits(level as nat),
        ensures
            r@ == spec_indent_string(self.spaces as nat, self.uses_tabs, level as nat),
    {
        let mut r = String::new();
        if self.uses_tabs {
            push_repeat(&mut r, '\t', level);
        } else {
            push_repeat(&mut r, ' ', self.spaces * level);
        }
        assert(r@ =~= spec_indent_string(self.spaces as nat, self.uses_tabs, level as nat));
        r
    }
}

// ---------------------------------------------------------------------------
// Counting helpers
// ---------------------------------------------------------------------------

/// Number of occurrences of `v` in `s`.
pub open spec fn count_of(s: Seq<usize>, v: int) -> nat
    decreases s.len(),
{
    if s.len() == 0 {
        0
    } else {
        count_of(s.drop_last(), v) + if s.last() == v {
            1nat
        } else {
            0nat
        }
    }
}

/// `m` is a most frequent value of `s`.
pub open spec fn is_mode(s: Seq<usize>, m: int) -> bool {
    &&& count_of(s, m) >= 1
    &&& forall|v: int| count_of(s, v) <= count_of(s, m)
}

proof fn lemma_count_push(s: Seq<usize>, x: usize, v: int)
    ensures
        count_of(s.push(x), v) == count_of(s, v) + if x == v {
            1nat
        } else {
            0nat
        },
{
    assert(s.push(x).drop_last() == s);
}

proof fn lemma_count_bound(s: Seq<usize>, v: int)
    ensures
        count_of(s, v) <= s.len(),
        count_of(s, v) >= 1 ==> exists|i: int| 0 <= i < s.len() && s[i] == v,
    decreases s.len(),
{
    if s.len() > 0 {
        lemma_count_bound(s.drop_last(), v);
        if count_of(s.drop_last(), v) >= 1 {
            let i = choose|i: int| 0 <= i < s.drop_last().len() && s.drop_last()[i] == v;
            assert(s[i] == v);
        }
    }
}

proof fn lemma_count_pos(s: Seq<usize>, i: int)
    requires
        0 <= i < s.len(),
    ensures
        count_of(s, s[i] as int) >= 1,
    decreases s.len(),
{
    if i < s.len() - 1 {
        lemma_count_pos(s.drop_last(), i);
        assert(s.drop_last()[i] == s[i]);
    }
}

/// The most frequent value of a non-empty sequence (ties: any of them).
pub fn mode_usize(values: &Vec<usize>) -> (r: Option<usize>)
    ensures
        values@.len() == 0 ==> r is None,
        values@.len() > 0 ==> (r matches Some(m) && is_mode(values@, m as int)),
{
    let mut counts: HashMap<usize, usize> = HashMap::new();
    let mut i: usize = 0;
    while i < values.len()
        invariant
            i <= values@.len(),
            forall|v: usize| #[trigger] counts@.contains_key(v) <==> count_of(values@.take(i as int), v as int) >= 1,
            forall|v: usize| counts@.contains_key(v) ==> #[trigger] counts@[v] == count_of(values@.take(i as int), v as int),
        decreases values.len() - i,
    {
        let x = values[i];
        proof {
            assert(values@.take(i + 1) == values@.take(i as int).push(x));
            lemma_count_bound(values@.take(i as int), x as int);
            assert forall|v: usize| true implies count_of(values@.take(i + 1), v as int) == count_of(values@.take(i as int), v as int) + if x == v { 1nat } else { 0nat } by {
                lemma_count_push(values@.take(i as int), x, v as int);
            }
        }
        let c = match counts.get(&x) {
            Some(c) => *c,
            None => 0,
        };
        counts.insert(x, c + 1);
        i = i + 1;
    }
    proof {
        assert(values@.take(values@.len() as int) == values@);
    }
    if values.len() == 0 {
        return None;
    }
    let mut best = values[0];
    let mut best_count: usize = 0;
    proof {
        lemma_count_pos(values@, 0);
    }
    match counts.get(&best) {
        Some(c) => {
            best_count = *c;
        },
        None => {},
    }
    let mut k: usize = 1;
    while k < values.len()
        invariant
            1 <= k <= values@.len(),
            forall|v: usize| #[trigger] counts@.contains_key(v) <==> count_of(values@, v as int) >= 1,
            forall|v: usize| counts@.contains_key(v) ==> #[trigger] counts@[v] == count_of(values@, v as int),
            best_count == count_of(values@, best as int),
            best_count >= 1,
            forall|j: int| 0 <= j < k ==> count_of(values@, values@[j] as int) <= best_count,
        decreases values.len() - k,
    {
        let x = values[k];
        proof {
            lemma_count_pos(values@, k as int);
        }
        let c = match counts.get(&x) {
            Some(c) => *c,
            None => 0,
        };
        if c > best_count {
            best = x;
            best_count = c;
        }
        k = k + 1;
    }
    proof {
        assert forall|v: int| count_of(values@, v) <= count_of(values@, best as int) by {
            lemma_count_bound(values@, v);
            if count_of(values@, v) >= 1 {
                let j = choose|j: int| 0 <= j < values@.len() && values@[j] == v;
            }
        }
    }
    Some(best)
}

// ---------------------------------------------------------------------------
// detect_indent_style
// ---------------------------------------------------------------------------

/// The line's leading whitespace mixes tabs and spaces: its leading run of
/// tabs is followed by a space, or its leading run of spaces by a tab.
pub open spec fn mixed_lead(l: Seq<char>) -> bool {
    ||| (lead_tabs(l) > 0 && lead_tabs(l) < l.len() && l[lead_tabs(l) as int] == ' ')
    ||| (lead_spaces(l) > 0 && lead_spaces(l) < l.len() && l[lead_spaces(l) as int] == '\t')
}

/// The tab counts of the non-blank lines indented with tabs only, in order;
/// lines whose leading whitespace mixes tabs and spaces are discarded.
pub open spec fn tab_levels(ls: Seq<Seq<char>>) -> Seq<usize>
    decreases ls.len(),
{
    if ls.len() == 0 {
        seq![]
    } else {
        let l = ls.last();
        let rest = tab_levels(ls.drop_last());
        if !all_ws(l) && lead_tabs(l) > 0 && !mixed_lead(l) {
            rest.push(lead_tabs(l) as usize)
        } else {
            rest
        }
    }
}

/// The space counts of the non-blank lines indented with spaces only, in
/// order; lines whose leading whitespace mixes tabs and spaces are
/// discarded.
pub open spec fn space_levels(ls: Seq<Seq<char>>) -> Seq<usize>
    decreases ls.len(),
{
    if ls.len() == 0 {
        seq![]
    } else {
        let l = ls.last();
        let rest = space_levels(ls.drop_last());
        if !all_ws(l) && lead_spaces(l) > 0 && !mixed_lead(l) {
            rest.push(lead_spaces(l) as usize)
        } else {
            rest
        }
    }
}

/// `d` is the gap from level `i` to the next greater level.
pub open spec fn is_gap_at(levels: Seq<usize>, i: int, d: int) -> bool {
    exists|j: int|
        0 <= j < levels.len() && levels[i] < levels[j] && levels[j] - levels[i] == d && forall|k: int|
            0 <= k < levels.len() ==> !(levels[i] < #[trigger] levels[k] && levels[k] < levels[j])
}

/// `d` is a gap between two neighbouring distinct levels.
pub open spec fn is_gap(levels: Seq<usize>, d: int) -> bool {
    exists|i: int| 0 <= i < levels.len() && is_gap_at(levels, i, d)
}

/// The steps tried: from 2 to 16, each level that occurs, each gap between
/// neighbouring distinct levels, and 4.
pub open spec fn is_step_candidate(levels: Seq<usize>, c: int) -> bool {
    &&& 2 <= c <= 16
    &&& (c == 4 || count_of(levels, c) >= 1 || is_gap(levels, c))
}

/// `r` is the indent step that best explains the space levels: among the
/// candidates that occur as a level, the most frequent, the smaller step on
/// a tie (the score of a candidate is its frequency times 1000 minus the
/// step, and only a positive score can win).
pub open spec fn is_best_step(levels: Seq<usize>, r: int) -> bool {
    &&& is_step_candidate(levels, r)
    &&& count_of(levels, r) >= 1
    &&& forall|c: int|
        is_step_candidate(levels, c) ==> count_of(levels, c) < count_of(levels, r) || (count_of(
            levels,
            c,
        ) == count_of(levels, r) && r <= c)
}

/// Some candidate occurs as a level.
pub open spec fn has_step_candidate(levels: Seq<usize>) -> bool {
    exists|c: int| is_step_candidate(levels, c) && count_of(levels, c) >= 1
}

/// The indent step for space levels: the best step, or 4 when no candidate
/// occurs as a level.
pub open spec fn space_step(levels: Seq<usize>) -> usize {
    if has_step_candidate(levels) {
        (choose|r: int| is_best_step(levels, r)) as usize
    } else {
        4
    }
}

proof fn lemma_best_step_unique(levels: Seq<usize>, r1: int, r2: int)
    requires
        is_best_step(levels, r1),
        is_best_step(levels, r2),
    ensures
        r1 == r2,
{
}

/// The detected style is tabs: more than 80% of the indented lines use tabs.
pub open spec fn style_uses_tabs(ls: Seq<Seq<char>>) -> bool {
    let t = tab_levels(ls).len();
    let total = t + space_levels(ls).len();
    total > 0 && 5 * t > 4 * total
}

/// The spaces per level of the detected style.
pub open spec fn style_spaces(ls: Seq<Seq<char>>) -> usize {
    let total = tab_levels(ls).len() + space_levels(ls).len();
    if total == 0 {
        4
    } else if style_uses_tabs(ls) {
        0
    } else {
        space_step(space_levels(ls))
    }
}

/// `st` is what `detect_indent_style` gives for the lines `ls`: the default
/// (4 spaces) when no line is indented; tabs, with the most common tab count
/// as width, when more than 80% of indented lines use tabs; otherwise spaces
/// with the best step.
pub open spec fn style_of(ls: Seq<Seq<char>>, st: IndentStyle) -> bool {
    &&& st.uses_tabs == style_uses_tabs(ls)
    &&& st.spaces == style_spaces(ls)
    &&& if st.uses_tabs {
        is_mode(tab_levels(ls), st.width as int)
    } else {
        st.width == st.spaces
    }
}

/// Tabs take a supermajority: with `t` lines indented by tabs alone and `s`
/// by spaces alone (lines mixing both are not counted), the detected style
/// uses tabs exactly when `t` is more than 80% of `t + s`; with no indented
/// line it is four spaces.
pub proof fn law_tabs_need_supermajority(ls: Seq<Seq<char>>, st: IndentStyle)
    requires
        style_of(ls, st),
    ensures
        st.uses_tabs <==> 5 * tab_levels(ls).len() > 4 * (tab_levels(ls).len() + space_levels(ls).len()),
        tab_levels(ls).len() + space_levels(ls).len() == 0 ==> !st.uses_tabs && st.spaces == 4,
{
}

/// Finds the indentation step from a list of space counts.
///
/// The candidate steps are each level, each gap between neighbouring
/// distinct levels, and 4, kept between 2 and 16; each scores its frequency
/// as a level times 1000 minus the step, so the most frequent wins and the
/// smaller step on a tie (the step is the base unit, not the deepest nesting
/// level); when no candidate occurs as a level the step is 4.
///
/// A step is scored by how often it occurs as a level itself, not by how
/// many levels it divides: by divisibility a single stray two-space line in
/// a four-space block (levels 4, 2, 4, 4, 4, 4) would make 2 the step, every
/// correct line would then read as two levels deep, and the context scan of
/// `detect_expected_indent` would expect the wrong level. So levels 4, 8, 8
/// give 8, and levels 8, 16 give 8.
pub fn detect_space_step(levels: &Vec<usize>) -> (r: usize)
    ensures
        r == space_step(levels@),
        2 <= r <= 16,
{
    let ghost lv = levels@;
    let mut cand: Vec<bool> = Vec::new();
    let mut dc: Vec<usize> = Vec::new();
    let mut c: usize = 0;
    while c < 17
        invariant
            c <= 17,
            cand@.len() == c,
            dc@.len() == c,
            forall|j: int| 0 <= j < c ==> cand@[j] == (j == 4),
            forall|j: int| 0 <= j < c ==> dc@[j] == 0,
        decreases 17 - c,
    {
        cand.push(c == 4);
        dc.push(0);
        c = c + 1;
    }
    let mut i: usize = 0;
    proof {
        assert(lv.take(0) == Seq::<usize>::empty());
    }
    while i < levels.len()
        invariant
            lv == levels@,
            i <= lv.len(),
            cand@.len() == 17,
            dc@.len() == 17,
            forall|j: int| 2 <= j <= 16 ==> #[trigger] dc@[j] == count_of(lv.take(i as int), j),
            forall|j: int|
                2 <= j <= 16 ==> #[trigger] cand@[j] == (j == 4 || count_of(lv.take(i as int), j) >= 1
                    || exists|i2: int| 0 <= i2 < i && is_gap_at(lv, i2, j)),
        decreases levels.len() - i,
    {
        let x = levels[i];
        proof {
            assert(lv.take(i + 1) == lv.take(i as int).push(x));
            assert forall|j: int| 2 <= j <= 16 implies count_of(lv.take(i + 1), j) == count_of(lv.take(i as int), j) + if x == j { 1nat } else { 0nat } by {
                lemma_count_push(lv.take(i as int), x, j);
            }
            assert forall|j: int| 2 <= j <= 16 implies count_of(lv.take(i as int), j) <= i by {
                lemma_count_bound(lv.take(i as int), j);
            }
        }
        // the next greater level
        let mut found = false;
        let mut m: usize = 0;
        let mut mj: usize = 0;
        let mut k: usize = 0;
        while k < levels.len()
            invariant
                lv == levels@,
                k <= lv.len(),
                i < lv.len(),
                x == lv[i as int],
                found ==> mj < lv.len() && m == lv[mj as int] && m > x && forall|k2: int|
                    0 <= k2 < k && lv[k2] > x ==> lv[k2] >= m,
                !found ==> forall|k2: int| 0 <= k2 < k ==> lv[k2] <= x,
            decreases levels.len() - k,
        {
            let y = levels[k];
            if y > x && (!found || y < m) {
                found = true;
                m = y;
                mj = k;
            }
            k = k + 1;
        }
        let ghost old_cand = cand@;
        let ghost d: int = m - x;
        if x >= 2 && x <= 16 {
            cand.set(x, true);
        }
        let mut c: usize = 2;
        while c <= 16
            invariant
                2 <= c <= 17,
                dc@.len() == 17,
                i < lv.len(),
                x == lv[i as int],
                forall|j: int| 2 <= j < c ==> #[trigger] dc@[j] == count_of(lv.take(i + 1), j),
                forall|j: int| c <= j <= 16 ==> #[trigger] dc@[j] == count_of(lv.take(i as int), j),
                forall|j: int| 2 <= j <= 16 ==> count_of(lv.take(i as int), j) <= i,
                forall|j: int| 2 <= j <= 16 ==> count_of(lv.take(i + 1), j) == count_of(lv.take(i as int), j) + if x == j { 1nat } else { 0nat },
                i < usize::MAX,
            decreases 17 - c,
        {
            if x == c {
                let v = dc[c];
                dc.set(c, v + 1);
            }
            c = c + 1;
        }
        if found && m - x >= 2 && m - x <= 16 {
            cand.set(m - x, true);
        }
        proof {
            if found {
                assert(is_gap_at(lv, i as int, d)) by {
                    assert(0 <= mj < lv.len() && lv[i as int] < lv[mj as int] && lv[mj as int] - lv[i as int] == d);
                }
                assert forall|e: int| is_gap_at(lv, i as int, e) implies e == d by {
                    let j2 = choose|j2: int|
                        0 <= j2 < lv.len() && lv[i as int] < lv[j2] && lv[j2] - lv[i as int] == e && forall|k3: int|
                            0 <= k3 < lv.len() ==> !(lv[i as int] < #[trigger] lv[k3] && lv[k3] < lv[j2]);
                    assert(lv[j2] >= m);
                    assert(!(lv[i as int] < lv[mj as int] && lv[mj as int] < lv[j2]));
                }
            } else {
                assert forall|e: int| !is_gap_at(lv, i as int, e) by {
                    if is_gap_at(lv, i as int, e) {
                        let j2 = choose|j2: int|
                            0 <= j2 < lv.len() && lv[i as int] < lv[j2] && lv[j2] - lv[i as int] == e && forall|k3: int|
                                0 <= k3 < lv.len() ==> !(lv[i as int] < #[trigger] lv[k3] && lv[k3] < lv[j2]);
                        assert(lv[j2] <= x);
                    }
                }
            }
            assert forall|j: int|
                2 <= j <= 16 implies #[trigger] cand@[j] == (j == 4 || count_of(lv.take(i + 1), j) >= 1
                    || exists|i2: int| 0 <= i2 < i + 1 && is_gap_at(lv, i2, j)) by {
                if exists|i2: int| 0 <= i2 < i + 1 && is_gap_at(lv, i2, j) {
                    let i2 = choose|i2: int| 0 <= i2 < i + 1 && is_gap_at(lv, i2, j);
                    if i2 < i {
                        assert(exists|i3: int| 0 <= i3 < i && is_gap_at(lv, i3, j));
                    }
                }
                if found && j == d {
                    assert(is_gap_at(lv, i as int, j));
                }
            }
        }
        i = i + 1;
    }
    proof {
        assert(lv.take(lv.len() as int) == lv);
        assert forall|j: int| 2 <= j <= 16 implies #[trigger] cand@[j] == is_step_candidate(lv, j) by {
            if is_gap(lv, j) {
                let i2 = choose|i2: int| 0 <= i2 < lv.len() && is_gap_at(lv, i2, j);
            }
        }
    }
    let mut best: usize = 4;
    let mut best_count: usize = 0;
    let mut c: usize = 2;
    while c <= 16
        invariant
            lv == levels@,
            2 <= c <= 17,
            cand@.len() == 17,
            dc@.len() == 17,
            forall|j: int| 2 <= j <= 16 ==> #[trigger] dc@[j] == count_of(lv, j),
            forall|j: int| 2 <= j <= 16 ==> #[trigger] cand@[j] == is_step_candidate(lv, j),
            2 <= best <= 16,
            best_count == 0 ==> best == 4 && forall|j: int|
                2 <= j < c && is_step_candidate(lv, j) ==> count_of(lv, j) == 0,
            best_count > 0 ==> best < c && is_step_candidate(lv, best as int) && best_count == count_of(
                lv,
                best as int,
            ) && forall|j: int|
                2 <= j < c && is_step_candidate(lv, j) ==> count_of(lv, j) < best_count || (count_of(lv, j)
                    == best_count && best <= j),
        decreases 17 - c,
    {
        if cand[c] && dc[c] > best_count {
            best = c;
            best_count = dc[c];
        }
        c = c + 1;
    }
    proof {
        if best_count > 0 {
            assert(is_best_step(lv, best as int));
            assert(has_step_candidate(lv));
            let r = choose|r: int| is_best_step(lv, r);
            lemma_best_step_unique(lv, r, best as int);
        } else {
            assert(!has_step_candidate(lv));
        }
    }
    best
}

/// What one line contributes to style detection: `(spaces, tabs, blank)`.
fn line_shape(l: &String) -> (r: (usize, usize, bool))
    ensures
        r.0 == lead_spaces(l@),
        r.1 == lead_tabs(l@),
        r.2 == all_ws(l@),
{
    let v = chars_of(l.as_str());
    (count_leading_spaces(&v), count_leading_tabs(&v), is_blank(&v))
}

/// Whether the line's leading whitespace mixes tabs and spaces.
fn has_mixed_lead(l: &String) -> (b: bool)
    ensures
        b == mixed_lead(l@),
{
    let v = chars_of(l.as_str());
    let sp = count_leading_spaces(&v);
    let tb = count_leading_tabs(&v);
    (tb > 0 && tb < v.len() && v[tb] == ' ') || (sp > 0 && sp < v.len() && v[sp] == '\t')
}

/// Detects the indentation style of the lines `lines[lo..hi]`.
pub fn detect_indent_style_range(lines: &[String], lo: usize, hi: usize) -> (st: IndentStyle)
    requires
        lo <= hi <= lines@.len(),
    ensures
        style_of(strs(lines@).subrange(lo as int, hi as int), st),
        st.uses_tabs ==> st.width >= 1,
        !st.uses_tabs ==> 2 <= st.spaces <= 16,
{
    let ghost ls = strs(lines@).subrange(lo as int, hi as int);
    let mut space_lv: Vec<usize> = Vec::new();
    let mut tab_lv: Vec<usize> = Vec::new();
    let mut i = lo;
    proof {
        assert(ls.take(0) == Seq::<Seq<char>>::empty());
    }
    while i < hi
        invariant
            lo <= i <= hi <= lines@.len(),
            ls == strs(lines@).subrange(lo as int, hi as int),
            tab_lv@ == tab_levels(ls.take(i - lo)),
            space_lv@ == space_levels(ls.take(i - lo)),
            forall|j: int| 0 <= j < tab_lv@.len() ==> #[trigger] tab_lv@[j] >= 1,
            tab_lv@.len() + space_lv@.len() <= i - lo,
        decreases hi - i,
    {
        let (sp, tb, blank) = line_shape(&lines[i]);
        proof {
            assert(ls.take(i + 1 - lo).drop_last() == ls.take(i - lo));
            assert(ls.take(i + 1 - lo).last() == lines@[i as int]@);
        }
        if !blank && !has_mixed_lead(&lines[i]) {
            if tb > 0 {
                tab_lv.push(tb);
            } else if sp > 0 {
                space_lv.push(sp);
            }
        }
        i = i + 1;
    }
    proof {
        assert(ls.take(hi - lo) == ls);
    }
    let total = tab_lv.len() + space_lv.len();
    if total == 0 {
        return IndentStyle::default();
    }
    if 5 * (tab_lv.len() as u128) > 4 * (total as u128) {
        let m = mode_usize(&tab_lv);
        let width = match m {
            Some(w) => w,
            None => 1,
        };
        proof {
            lemma_count_bound(tab_lv@, width as int);
            let j = choose|j: int| 0 <= j < tab_lv@.len() && tab_lv@[j] == width;
        }
        return IndentStyle { spaces: 0, uses_tabs: true, width };
    }
    let step = detect_space_step(&space_lv);
    IndentStyle { spaces: step, uses_tabs: false, width: step }
}

/// Detects indentation style: the statistical mode of indent step sizes, with
/// a supermajority threshold for tabs versus spaces, over all non-blank lines.
pub fn detect_indent_style(lines: &[String]) -> (st: IndentStyle)
    ensures
        style_of(strs(lines@), st),
        st.uses_tabs ==> st.width >= 1,
        !st.uses_tabs ==> 2 <= st.spaces <= 16,
{
    let st = detect_indent_style_range(lines, 0, lines.len());
    assert(strs(lines@).subrange(0, lines@.len() as int) == strs(lines@));
    st
}


// ---------------------------------------------------------------------------
// Context helpers
// ---------------------------------------------------------------------------

/// Quality score for a context line (higher is more reliable): 10 for an
/// exact multiple of the step, 5 when off by 1 or 2, else 0; plus one per
/// level of depth, up to 5.
pub open spec fn spec_quality(lead: nat, step: nat) -> int {
    if step == 0 {
        0
    } else {
        let r = lead % step;
        let base: int = if r == 0 {
            10
        } else if r <= 2 {
            5
        } else {
            0
        };
        let depth: int = if lead / step < 5 {
            (lead / step) as int
        } else {
            5
        };
        base + depth
    }
}

/// The nearest indent level to a whitespace count (ties round down).
pub open spec fn spec_round(lead: nat, step: nat) -> nat {
    if step == 0 {
        0
    } else if lead % step > step / 2 {
        lead / step + 1
    } else {
        lead / step
    }
}

/// Quality score for a context line. Higher = more reliable.
/// - Exact multiple of step: +10 (ideal)
/// - Off by 1 or 2: +5 (slightly anomalous, still usable)
/// - Deeply indented lines: bonus of one per level, up to 5
pub fn context_quality(leading: usize, step: usize, _line: &str) -> (q: i32)
    ensures
        q == spec_quality(leading as nat, step as nat),
{
    if step == 0 {
        return 0;
    }
    let remainder = leading % step;
    let base: i32 = if remainder == 0 {
        10
    } else if remainder <= 2 {
        5
    } else {
        0
    };
    let d = leading / step;
    let depth_bonus: i32 = if d < 5 {
        d as i32
    } else {
        5
    };
    base + depth_bonus
}

/// Rounds a whitespace count to the nearest indent level.
/// 7 spaces in a 4-space file -> level 2 (7 rounds to 8, 8/4 = 2).
pub fn round_to_nearest_level(leading: usize, step: usize) -> (r: usize)
    ensures
        r == spec_round(leading as nat, step as nat),
{
    if step == 0 {
        return 0;
    }
    let exact = leading / step;
    let remainder = leading % step;
    if remainder > step / 2 {
        assert(exact < usize::MAX) by (nonlinear_arith)
            requires
                exact == leading / step,
                step >= 2,
        ;
        exact + 1
    } else {
        exact
    }
}

/// Number of leading whitespace characters of a line.
pub fn count_leading_whitespace(line: &str) -> (n: usize)
    ensures
        n == lead_ws(line@),
{
    count_leading_ws(&chars_of(line))
}

/// A line cut at its first `//`, or else at its first `#`.
pub open spec fn spec_strip_comment(s: Seq<char>) -> Seq<char> {
    match find(s, seq!['/', '/']) {
        Some(p) => s.take(p),
        None => match find(s, seq!['#']) {
            Some(p) => s.take(p),
            None => s,
        },
    }
}

/// Removes a trailing `//` or `#` comment (the first `//`, else the first `#`,
/// and everything after it).
pub fn strip_trailing_comment(s: &str) -> (r: &str)
    ensures
        r@ == spec_strip_comment(s@),
{
    let v = chars_of(s);
    let slashes = vec!['/', '/'];
    let hash = vec!['#'];
    assert(slashes@ == seq!['/', '/']);
    assert(hash@ == seq!['#']);
    proof {
        lemma_find_some(v@, slashes@);
        lemma_find_some(v@, hash@);
    }
    match find_exec(&v, &slashes) {
        Some(p) => s.substring_char(0, p),
        None => match find_exec(&v, &hash) {
            Some(p) => s.substring_char(0, p),
            None => s,
        },
    }
}

/// The position of the last `{` or `}`.
pub open spec fn last_brace(t: Seq<char>) -> Option<int>
    decreases t.len(),
{
    if t.len() == 0 {
        None
    } else if t.last() == '{' || t.last() == '}' {
        Some(t.len() - 1)
    } else {
        last_brace(t.drop_last())
    }
}

/// The line opens a block or continues onto the next: its last brace is `{`
/// (so `fn foo() {}` does not), or it ends with `:`, `(` or `[`.
pub open spec fn opens_level(t: Seq<char>) -> bool {
    ||| (last_brace(t) matches Some(p) && t[p] == '{')
    ||| (t.len() > 0 && (t.last() == ':' || t.last() == '(' || t.last() == '['))
}

fn opens_level_exec(t: &Vec<char>) -> (b: bool)
    ensures
        b == opens_level(t@),
{
    let mut k = t.len();
    assert(t@.take(k as int) == t@);
    while k > 0 && t[k - 1] != '{' && t[k - 1] != '}'
        invariant
            k <= t@.len(),
            last_brace(t@) == last_brace(t@.take(k as int)),
        decreases k,
    {
        proof {
            assert(t@.take(k as int).drop_last() == t@.take(k - 1));
        }
        k = k - 1;
    }
    let brace_open = k > 0 && t[k - 1] == '{';
    proof {
        if k > 0 {
            assert(t@.take(k as int).last() == t@[k - 1]);
            assert(last_brace(t@) == Some(k - 1));
        } else {
            assert(t@.take(0) == Seq::<char>::empty());
        }
    }
    let n = t.len();
    brace_open || (n > 0 && (t[n - 1] == ':' || t[n - 1] == '(' || t[n - 1] == '['))
}

/// The index of the last non-blank line before index `s`.
pub open spec fn last_nonblank_before(ls: Seq<Seq<char>>, s: int) -> Option<int>
    decreases s,
{
    if s <= 0 {
        None
    } else if s - 1 < ls.len() && !all_ws(ls[s - 1]) {
        Some(s - 1)
    } else {
        last_nonblank_before(ls, s - 1)
    }
}

/// Returns the raw content of the last non-empty line before `start_line`.
pub fn context_line_before(all_lines: &[String], start_line: usize) -> (r: Option<&String>)
    ensures
        match last_nonblank_before(strs(all_lines@), sat_dec(start_line as int)) {
            Some(k) => r matches Some(l) && l@ == strs(all_lines@)[k],
            None => r is None,
        },
{
    let s = if start_line == 0 {
        0
    } else {
        start_line - 1
    };
    let mut i = s;
    while i > 0
        invariant
            i <= s,
            s == sat_dec(start_line as int),
            last_nonblank_before(strs(all_lines@), s as int) == last_nonblank_before(strs(all_lines@), i as int),
        decreases i,
    {
        if i - 1 < all_lines.len() {
            let (_, _, blank) = line_shape(&all_lines[i - 1]);
            if !blank {
                return Some(&all_lines[i - 1]);
            }
        }
        i = i - 1;
    }
    None
}

/// `x - 1`, or 0 when `x` is 0 (`saturating_sub(1)`).
pub open spec fn sat_dec(x: int) -> int {
    if x <= 0 {
        0
    } else {
        x - 1
    }
}

/// `x - n` saturating at 0.
pub open spec fn sat_sub(x: int, n: int) -> int {
    if x <= n {
        0
    } else {
        x - n
    }
}

// ---------------------------------------------------------------------------
// detect_expected_indent
// ---------------------------------------------------------------------------

/// A non-blank line that starts with a space or a tab.
pub open spec fn is_indented(l: Seq<char>) -> bool {
    !all_ws(l) && (lead_spaces(l) > 0 || lead_tabs(l) > 0)
}

/// Number of indented lines.
pub open spec fn count_indented(ls: Seq<Seq<char>>) -> nat
    decreases ls.len(),
{
    if ls.len() == 0 {
        0
    } else {
        count_indented(ls.drop_last()) + if is_indented(ls.last()) {
            1nat
        } else {
            0nat
        }
    }
}

/// The lines whose style decides the expected indentation at `start_line`:
/// the up-to-20 lines before it; near the top of the file, with fewer than
/// two indented lines there, the lines up to 20 after it as well; and the
/// whole file when that gives fewer than three lines.
pub open spec fn source_lines(ls: Seq<Seq<char>>, start_line: int) -> Seq<Seq<char>> {
    let n = ls.len() as int;
    let idx = if sat_dec(start_line) < n {
        sat_dec(start_line)
    } else {
        n
    };
    let ws = sat_sub(idx, 20);
    let window = ls.subrange(ws, idx);
    if ws == 0 && n > idx && count_indented(window) < 2 {
        let fe = if idx + 20 < n {
            idx + 20
        } else {
            n
        };
        if fe >= 3 {
            ls.subrange(0, fe)
        } else {
            ls
        }
    } else if window.len() >= 3 {
        window
    } else {
        ls
    }
}

/// The indent step of the source lines' style (1 for tabs).
pub open spec fn expected_step(ls: Seq<Seq<char>>, start_line: int) -> nat {
    let src = source_lines(ls, start_line);
    if style_uses_tabs(src) {
        1
    } else if style_spaces(src) == 0 {
        1
    } else {
        style_spaces(src) as nat
    }
}

/// The backward scan over indices `i-1` down to `lo`: each non-blank line
/// whose quality beats the best so far gives the level; an exact multiple of
/// the step ends the scan.
pub open spec fn scan_best(
    ls: Seq<Seq<char>>,
    step: nat,
    i: int,
    lo: int,
    best: Option<nat>,
    best_q: int,
) -> Option<nat>
    decreases i - lo,
{
    if i <= lo {
        best
    } else {
        let k = i - 1;
        if k >= ls.len() || all_ws(ls[k]) {
            scan_best(ls, step, k, lo, best, best_q)
        } else {
            let lead = lead_ws(ls[k]);
            let q = spec_quality(lead, step);
            if q > best_q {
                if lead % step == 0 {
                    Some(spec_round(lead, step))
                } else {
                    scan_best(ls, step, k, lo, Some(spec_round(lead, step)), q)
                }
            } else {
                scan_best(ls, step, k, lo, best, best_q)
            }
        }
    }
}

/// The best context level found by scanning back up to 20 lines.
pub open spec fn scanned_level(ls: Seq<Seq<char>>, start_line: int) -> Option<nat> {
    let s = sat_dec(start_line);
    scan_best(ls, expected_step(ls, start_line), s, sat_sub(s, 20), None, -1)
}

/// The expected indentation level at `start_line`: the scanned context level,
/// one deeper after a line that opens a block, at least the level of the last
/// non-blank line before it, and at least the level of the line being
/// replaced when the scan found context.
pub open spec fn expected_level(ls: Seq<Seq<char>>, start_line: int) -> nat {
    let step = expected_step(ls, start_line);
    let s = sat_dec(start_line);
    let best = scanned_level(ls, start_line);
    let lvl0: nat = match best {
        Some(l) => l,
        None => 0,
    };
    let lvl1: nat = match last_nonblank_before(ls, s) {
        Some(k) => {
            let t = spec_strip_comment(trim_end(ls[k]));
            let inc: nat = if opens_level(t) {
                1
            } else {
                0
            };
            let clb = spec_round(lead_ws(ls[k]), step);
            if lvl0 + inc >= clb {
                lvl0 + inc
            } else {
                clb
            }
        },
        None => lvl0,
    };
    if best is Some && s < ls.len() && !all_ws(ls[s]) {
        let at = spec_round(lead_ws(ls[s]), step);
        if lvl1 >= at {
            lvl1
        } else {
            at
        }
    } else {
        lvl1
    }
}

/// The level and its indentation string fit in a `usize`.
pub open spec fn expected_fits(ls: Seq<Seq<char>>, start_line: int) -> bool {
    let src = source_lines(ls, start_line);
    let level = expected_level(ls, start_line);
    &&& level <= usize::MAX
    &&& (style_uses_tabs(src) || style_spaces(src) * level <= usize::MAX)
}

fn count_indented_range(lines: &[String], lo: usize, hi: usize) -> (n: usize)
    requires
        lo <= hi <= lines@.len(),
    ensures
        n == count_indented(strs(lines@).subrange(lo as int, hi as int)),
{
    let ghost ls = strs(lines@).subrange(lo as int, hi as int);
    let mut n: usize = 0;
    let mut i = lo;
    proof {
        assert(ls.take(0) == Seq::<Seq<char>>::empty());
    }
    while i < hi
        invariant
            lo <= i <= hi <= lines@.len(),
            ls == strs(lines@).subrange(lo as int, hi as int),
            n == count_indented(ls.take(i - lo)),
            n <= i - lo,
        decreases hi - i,
    {
        let (sp, tb, blank) = line_shape(&lines[i]);
        proof {
            assert(ls.take(i + 1 - lo).drop_last() == ls.take(i - lo));
            assert(ls.take(i + 1 - lo).last() == lines@[i as int]@);
        }
        if !blank && (sp > 0 || tb > 0) {
            n = n + 1;
        }
        i = i + 1;
    }
    proof {
        assert(ls.take(hi - lo) == ls);
    }
    n
}

/// Detects the expected indentation style and level at the splice site by
/// scanning backwards through up to 20 preceding lines for a reliable
/// context line.
fn expected_indent_wide(all_lines: &[String], start_line: usize) -> (r: (IndentStyle, u128))
    ensures
        style_of(source_lines(strs(all_lines@), start_line as int), r.0),
        r.1 == expected_level(strs(all_lines@), start_line as int),
        r.1 <= usize::MAX + 1,
        !r.0.uses_tabs ==> 2 <= r.0.spaces <= 16,
{
    let ghost ls = strs(all_lines@);
    let n = all_lines.len();
    let s = if start_line == 0 {
        0
    } else {
        start_line - 1
    };
    let idx = if s < n {
        s
    } else {
        n
    };
    let window_start = if idx > 20 {
        idx - 20
    } else {
        0
    };
    let indented_in_window = count_indented_range(all_lines, window_start, idx);
    let style = if window_start == 0 && n > idx && indented_in_window < 2 {
        let forward_end = if idx + 20 < n {
            idx + 20
        } else {
            n
        };
        if forward_end >= 3 {
            detect_indent_style_range(all_lines, 0, forward_end)
        } else {
            detect_indent_style(all_lines)
        }
    } else if idx - window_start >= 3 {
        detect_indent_style_range(all_lines, window_start, idx)
    } else {
        detect_indent_style(all_lines)
    };
    proof {
        assert(source_lines(ls, start_line as int) == if window_start == 0 && n > idx && indented_in_window < 2 {
            if (if idx + 20 < n { idx + 20 } else { n as int }) >= 3 {
                ls.subrange(0, if idx + 20 < n { idx + 20 } else { n as int })
            } else {
                ls
            }
        } else if idx - window_start >= 3 {
            ls.subrange(window_start as int, idx as int)
        } else {
            ls
        });
    }
    let step: usize = if style.uses_tabs {
        1
    } else if style.spaces == 0 {
        1
    } else {
        style.spaces
    };
    let scan_start = if s > 20 {
        s - 20
    } else {
        0
    };
    let mut best_level: Option<usize> = None;
    let mut best_quality: i32 = -1;
    let mut i = s;
    let mut done = false;
    let ghost target = scanned_level(ls, start_line as int);
    while i > scan_start && !done
        invariant
            scan_start <= i <= s,
            s == sat_dec(start_line as int),
            scan_start == sat_sub(s as int, 20),
            n == all_lines@.len(),
            step >= 1,
            step == expected_step(ls, start_line as int),
            ls == strs(all_lines@),
            target == scanned_level(ls, start_line as int),
            done ==> target == match best_level {
                Some(l) => Some(l as nat),
                None => None::<nat>,
            },
            !done ==> target == scan_best(
                ls,
                step as nat,
                i as int,
                scan_start as int,
                match best_level {
                    Some(l) => Some(l as nat),
                    None => None,
                },
                best_quality as int,
            ),
            -1 <= best_quality <= 15,
        decreases i,
    {
        let k = i - 1;
        if k < n {
            let v = chars_of(all_lines[k].as_str());
            let blank = is_blank(&v);
            if !blank {
                let leading = count_leading_ws(&v);
                let quality = context_quality(leading, step, all_lines[k].as_str());
                if quality > best_quality {
                    let level = round_to_nearest_level(leading, step);
                    best_level = Some(level);
                    best_quality = quality;
                    if leading % step == 0 {
                        done = true;
                    }
                }
            }
        }
        i = i - 1;
    }
    let ghost lvl0: nat = match target {
        Some(l) => l,
        None => 0,
    };
    let mut context_level: u128 = match best_level {
        Some(l) => l as u128,
        None => 0,
    };
    assert(context_level == lvl0);
    match context_line_before(all_lines, start_line) {
        Some(line) => {
            let ghost k = last_nonblank_before(ls, s as int)->0;
            let v = chars_of(line.as_str());
            let t = count_trailing_ws(&v);
            proof {
                lemma_trail_len_bound(v@, |c: char| is_ws(c));
            }
            let trimmed = line.as_str().substring_char(0, v.len() - t);
            assert(trimmed@ == trim_end(ls[k]));
            let no_comment = strip_trailing_comment(trimmed);
            let nc = chars_of(no_comment);
            if opens_level_exec(&nc) {
                context_level = context_level + 1;
            }
            let clb_level = round_to_nearest_level(count_leading_ws(&v), step) as u128;
            if clb_level > context_level {
                context_level = clb_level;
            }
        },
        None => {},
    }
    if best_level.is_some() && s < n {
        let v = chars_of(all_lines[s].as_str());
        if !is_blank(&v) {
            let at_level = round_to_nearest_level(count_leading_ws(&v), step) as u128;
            if at_level > context_level {
                context_level = at_level;
            }
        }
    }
    (style, context_level)
}

/// Detects the expected indentation style and level at the splice site by
/// scanning backwards through up to 20 preceding lines for a reliable
/// context line.
pub fn detect_expected_indent(all_lines: &[String], start_line: usize) -> (r: (IndentStyle, usize))
    requires
        expected_fits(strs(all_lines@), start_line as int),
    ensures
        style_of(source_lines(strs(all_lines@), start_line as int), r.0),
        r.1 == expected_level(strs(all_lines@), start_line as int),
        !r.0.uses_tabs ==> 2 <= r.0.spaces <= 16,
        r.0.indent_fits(r.1 as nat),
{
    let (style, level) = expected_indent_wide(all_lines, start_line);
    (style, level as usize)
}

/// Whether the expected indentation at `start_line` can be represented: its
/// level, and the length of its indentation string, fit in a `usize`.
pub fn indent_fits_at(all_lines: &[String], start_line: usize) -> (b: bool)
    ensures
        b == expected_fits(strs(all_lines@), start_line as int),
{
    let (style, level) = expected_indent_wide(all_lines, start_line);
    if level > usize::MAX as u128 {
        return false;
    }
    if style.uses_tabs {
        return true;
    }
    let sp = style.spaces as u128;
    assert(sp * level <= 16 * 0x1_0000_0000_0000_0000) by (nonlinear_arith)
        requires
            sp <= 16,
            level <= 0x1_0000_0000_0000_0000,
    ;
    sp * level <= usize::MAX as u128
}

} // verus!

verus! {

// ---------------------------------------------------------------------------
// Checking and fixing replacement content
// ---------------------------------------------------------------------------

/// The line, once its leading whitespace is skipped, starts with `)`, `}` or `]`.
pub open spec fn is_closer(l: Seq<char>) -> bool {
    let t = trim_start(l);
    t.len() > 0 && (t[0] == ')' || t[0] == '}' || t[0] == ']')
}

/// A line whose indentation counts: non-blank and not a closer.
pub open spec fn is_body_line(l: Seq<char>) -> bool {
    !all_ws(l) && !is_closer(l)
}

/// The smallest leading whitespace over the body lines, if there is one.
pub open spec fn min_body_lead(ls: Seq<Seq<char>>) -> Option<nat>
    decreases ls.len(),
{
    if ls.len() == 0 {
        None
    } else {
        let l = ls.last();
        match min_body_lead(ls.drop_last()) {
            None => if is_body_line(l) {
                Some(lead_ws(l))
            } else {
                None
            },
            Some(m) => if is_body_line(l) && lead_ws(l) < m {
                Some(lead_ws(l))
            } else {
                Some(m)
            },
        }
    }
}

/// Some line is not blank.
pub open spec fn has_content(ls: Seq<Seq<char>>) -> bool {
    exists|i: int| 0 <= i < ls.len() && !all_ws(#[trigger] ls[i])
}

/// The first non-blank line is a closer.
pub open spec fn opens_with_closer(ls: Seq<Seq<char>>) -> bool {
    exists|i: int|
        0 <= i < ls.len() && !all_ws(#[trigger] ls[i]) && is_closer(ls[i]) && forall|j: int|
            0 <= j < i ==> all_ws(#[trigger] ls[j])
}

/// Length of the indentation string of `level` in a style.
pub open spec fn indent_len(spaces: nat, uses_tabs: bool, level: nat) -> nat {
    if uses_tabs {
        level
    } else {
        spaces * level
    }
}

/// The expected indentation string at `start_line`.
pub open spec fn expected_indent(ls: Seq<Seq<char>>, start_line: int) -> Seq<char> {
    let src = source_lines(ls, start_line);
    spec_indent_string(
        style_spaces(src) as nat,
        style_uses_tabs(src),
        expected_level(ls, start_line),
    )
}

/// The warning `validate_indentation` gives when the content is indented
/// `min` characters deep and `expected` characters are expected.
pub open spec fn indent_warning(min: nat, uses_tabs: bool, level: nat, expected: nat) -> Seq<char> {
    let unit = if uses_tabs {
        "tab(s)"@
    } else {
        "space(s)"@
    };
    let desc = if uses_tabs {
        decimal(level) + " tab(s)"@
    } else {
        decimal(expected) + " space(s)"@
    };
    "INDENTATION WARNING: Replacement has "@ + decimal(min) + " leading "@ + unit + ", expected "@
        + desc + " (diff: "@ + decimal((expected - min) as nat) + ")"@
}

/// A line re-indented to `indent`: blank lines are kept as they are.
pub open spec fn reindent_line(indent: Seq<char>, l: Seq<char>) -> Seq<char> {
    if all_ws(l) {
        l
    } else {
        indent + trim_start(l)
    }
}

/// What `validate_indentation` returns: `(true, None, None)` when the
/// replacement has no content or its body lines are indented at least as
/// deep as expected; otherwise `false`, the warning, and every non-blank
/// line re-indented to the expected indentation, joined with `"\n"`.
pub open spec fn spec_validate(
    ls: Seq<Seq<char>>,
    start_line: int,
    repl: Seq<Seq<char>>,
) -> (bool, Option<Seq<char>>, Option<Seq<char>>) {
    let src = source_lines(ls, start_line);
    let tabs = style_uses_tabs(src);
    let level = expected_level(ls, start_line);
    let indent = expected_indent(ls, start_line);
    let e = indent.len();
    let m: nat = match min_body_lead(repl) {
        Some(m) => m,
        None => usize::MAX as nat,
    };
    if !has_content(repl) || m >= e {
        (true, None, None)
    } else {
        (
            false,
            Some(indent_warning(m, tabs, level, e)),
            Some(join_nl(repl.map_values(|l: Seq<char>| reindent_line(indent, l)))),
        )
    }
}

/// The view of an optional string.
pub open spec fn opt_view(o: Option<String>) -> Option<Seq<char>> {
    match o {
        Some(s) => Some(s@),
        None => None,
    }
}

proof fn lemma_min_body_push(ls: Seq<Seq<char>>, l: Seq<char>)
    ensures
        min_body_lead(ls.push(l)) == match min_body_lead(ls) {
            None => if is_body_line(l) {
                Some(lead_ws(l))
            } else {
                None
            },
            Some(m) => if is_body_line(l) && lead_ws(l) < m {
                Some(lead_ws(l))
            } else {
                Some(m)
            },
        },
{
    assert(ls.push(l).drop_last() == ls);
}

proof fn lemma_min_body_le(ls: Seq<Seq<char>>, i: int)
    requires
        0 <= i < ls.len(),
        is_body_line(ls[i]),
    ensures
        min_body_lead(ls) matches Some(m) && m <= lead_ws(ls[i]),
    decreases ls.len(),
{
    if i < ls.len() - 1 {
        lemma_min_body_le(ls.drop_last(), i);
    }
}

/// Whether a line of characters is a closer.
fn is_closer_exec(v: &Vec<char>) -> (b: bool)
    ensures
        b == is_closer(v@),
{
    let a = count_leading_ws(v);
    proof {
        lemma_lead_len_bounds(v@, |c: char| is_ws(c));
    }
    a < v.len() && (v[a] == ')' || v[a] == '}' || v[a] == ']')
}

/// The smallest leading whitespace over the body lines, if any.
fn min_body_leading(ls: &Vec<Vec<char>>) -> (r: Option<usize>)
    ensures
        match r {
            Some(m) => min_body_lead(ls@.map_values(|l: Vec<char>| l@)) == Some(m as nat),
            None => min_body_lead(ls@.map_values(|l: Vec<char>| l@)) is None,
        },
{
    let ghost lv = ls@.map_values(|l: Vec<char>| l@);
    let mut r: Option<usize> = None;
    let mut k: usize = 0;
    assert(lv.take(0) == Seq::<Seq<char>>::empty());
    while k < ls.len()
        invariant
            k <= ls@.len(),
            lv == ls@.map_values(|l: Vec<char>| l@),
            match r {
                Some(m) => min_body_lead(lv.take(k as int)) == Some(m as nat),
                None => min_body_lead(lv.take(k as int)) is None,
            },
        decreases ls.len() - k,
    {
        let v = &ls[k];
        let body = !is_blank(v) && !is_closer_exec(v);
        let lead = count_leading_ws(v);
        proof {
            assert(lv.take(k + 1) == lv.take(k as int).push(v@));
            lemma_min_body_push(lv.take(k as int), v@);
        }
        if body {
            match r {
                None => {
                    r = Some(lead);
                },
                Some(m) => {
                    if lead < m {
                        r = Some(lead);
                    }
                },
            }
        }
        k = k + 1;
    }
    assert(lv.take(ls@.len() as int) == lv);
    r
}

/// Index of the first non-blank line, if any.
fn first_nonblank(ls: &Vec<Vec<char>>) -> (r: Option<usize>)
    ensures
        match r {
            Some(i) => i < ls@.len() && !all_ws(ls@[i as int]@) && forall|j: int|
                0 <= j < i ==> all_ws(#[trigger] ls@[j]@),
            None => forall|j: int| 0 <= j < ls@.len() ==> all_ws(#[trigger] ls@[j]@),
        },
{
    let mut k: usize = 0;
    while k < ls.len()
        invariant
            k <= ls@.len(),
            forall|j: int| 0 <= j < k ==> all_ws(#[trigger] ls@[j]@),
        decreases ls.len() - k,
    {
        if !is_blank(&ls[k]) {
            return Some(k);
        }
        k = k + 1;
    }
    None
}

/// `l` re-indented: `indent` followed by `l` without its leading
/// whitespace, or `l` itself when blank.
fn reindent_exec(indent: &Vec<char>, l: &Vec<char>) -> (r: Vec<char>)
    ensures
        r@ == reindent_line(indent@, l@),
{
    if is_blank(l) {
        return l.clone();
    }
    let a = count_leading_ws(l);
    proof {
        lemma_lead_len_bounds(l@, |c: char| is_ws(c));
    }
    let mut r = indent.clone();
    let mut j = a;
    while j < l.len()
        invariant
            a <= j <= l@.len(),
            a == lead_ws(l@),
            r@ == indent@ + l@.subrange(a as int, j as int),
        decreases l.len() - j,
    {
        r.push(l[j]);
        j = j + 1;
    }
    assert(l@.subrange(a as int, l@.len() as int) == trim_start(l@));
    r
}

/// Validates that replacement lines match the detected indentation style.
///
/// Returns `(true, None, None)` when the replacement is blank or indented at
/// least as deep as expected; otherwise `false`, a warning that gives the
/// found and the expected indentation, and the replacement re-indented to the
/// expected level.
pub fn validate_indentation(
    all_lines: &[String],
    start_line: usize,
    _end_line: usize,
    replacement_lines: &[String],
) -> (r: (bool, Option<String>, Option<String>))
    requires
        expected_fits(strs(all_lines@), start_line as int),
    ensures
        (r.0, opt_view(r.1), opt_view(r.2)) == spec_validate(
            strs(all_lines@),
            start_line as int,
            strs(replacement_lines@),
        ),
{
    let ghost ls = strs(all_lines@);
    let ghost rl = strs(replacement_lines@);
    let (style, level) = detect_expected_indent(all_lines, start_line);
    let indent_str = style.indent_string(level);
    let e: usize = if style.uses_tabs {
        level
    } else {
        style.spaces * level
    };
    let indent = chars_of(indent_str.as_str());
    assert(indent@ == expected_indent(ls, start_line as int));
    let repl = char_lines(replacement_lines);
    assert(repl@.map_values(|l: Vec<char>| l@) == rl);
    let first = first_nonblank(&repl);
    let m: usize = match min_body_leading(&repl) {
        Some(m) => m,
        None => usize::MAX,
    };
    proof {
        assert(indent@.len() == e);
        match first {
            Some(i) => {
                assert(rl[i as int] == repl@[i as int]@);
                assert(has_content(rl));
            },
            None => {
                assert forall|i: int| 0 <= i < rl.len() implies all_ws(#[trigger] rl[i]) by {
                    assert(rl[i] == repl@[i]@);
                }
            },
        }
    }
    if first.is_none() || m >= e {
        return (true, None, None);
    }
    let mut w = copy_str("INDENTATION WARNING: Replacement has ");
    push_decimal(&mut w, m as u64);
    push_str(&mut w, " leading ");
    if style.uses_tabs {
        push_str(&mut w, "tab(s)");
    } else {
        push_str(&mut w, "space(s)");
    }
    push_str(&mut w, ", expected ");
    let ghost before_desc = w@;
    if style.uses_tabs {
        push_decimal(&mut w, level as u64);
        push_str(&mut w, " tab(s)");
    } else {
        push_decimal(&mut w, e as u64);
        push_str(&mut w, " space(s)");
    }
    let ghost after_desc = w@;
    push_str(&mut w, " (diff: ");
    push_decimal(&mut w, (e - m) as u64);
    push_str(&mut w, ")");
    proof {
        let desc = if style.uses_tabs {
            decimal(level as nat) + " tab(s)"@
        } else {
            decimal(e as nat) + " space(s)"@
        };
        assert(after_desc =~= before_desc + desc);
        assert(w@ =~= indent_warning(m as nat, style.uses_tabs, level as nat, e as nat));
    }
    let mut fixed: Vec<Vec<char>> = Vec::new();
    let mut k: usize = 0;
    while k < repl.len()
        invariant
            k <= repl@.len(),
            rl == repl@.map_values(|l: Vec<char>| l@),
            fixed@.map_values(|l: Vec<char>| l@) == rl.take(k as int).map_values(
                |l: Seq<char>| reindent_line(indent@, l),
            ),
        decreases repl.len() - k,
    {
        let f = reindent_exec(&indent, &repl[k]);
        let ghost before = fixed@;
        fixed.push(f);
        proof {
            assert(fixed@.map_values(|l: Vec<char>| l@) =~= before.map_values(|l: Vec<char>| l@).push(f@));
            assert(rl.take(k + 1) =~= rl.take(k as int).push(rl[k as int]));
            assert(rl.take(k + 1).map_values(|l: Seq<char>| reindent_line(indent@, l)) =~= rl.take(
                k as int,
            ).map_values(|l: Seq<char>| reindent_line(indent@, l)).push(reindent_line(indent@, rl[k as int])));
        }
        k = k + 1;
    }
    assert(rl.take(repl@.len() as int) == rl);
    let fix = join_nl_exec(&fixed);
    (false, Some(w), Some(fix))
}

/// A content line shifted by `e - m`: a line at least as deep as the
/// minimum `m` gets the base indentation `e` of `c` plus its overhang as
/// spaces; a shallower line (a closer) gets `e` less its shortfall, of `c`;
/// blank lines are kept as they are.
pub open spec fn shift_line(l: Seq<char>, m: nat, c: char, e: nat) -> Seq<char> {
    if all_ws(l) {
        l
    } else if lead_ws(l) >= m {
        repeat_char(c, e) + repeat_char(' ', (lead_ws(l) - m) as nat) + trim_start(l)
    } else {
        repeat_char(c, (e + lead_ws(l) - m) as nat) + trim_start(l)
    }
}

/// The indentation level the content's base is moved to: one less when its
/// first non-blank line closes a block.
pub open spec fn effective_level(cl: Seq<Seq<char>>, level: nat) -> nat {
    if opens_with_closer(cl) && level > 0 {
        (level - 1) as nat
    } else {
        level
    }
}

/// The smallest body indentation of content lines, 0 without body lines.
pub open spec fn content_min(cl: Seq<Seq<char>>) -> nat {
    match min_body_lead(cl) {
        Some(m) => m,
        None => 0,
    }
}

/// `auto_indent_content` rewrites the content: an indentation is expected
/// there, and the content's body lines sit shallower than it.
pub open spec fn auto_indent_rewrites(ls: Seq<Seq<char>>, start_line: int, content: Seq<char>) -> bool {
    let src = source_lines(ls, start_line);
    let tabs = style_uses_tabs(src);
    let spaces = style_spaces(src) as nat;
    let level = expected_level(ls, start_line);
    let cl = str_lines(content);
    &&& indent_len(spaces, tabs, level) != 0
    &&& content_min(cl) < indent_len(spaces, tabs, effective_level(cl, level))
}

/// What `auto_indent_content` returns: the content unchanged, unless it is
/// rewritten; then each non-blank line is shifted by the same amount, from
/// the body lines' minimum to the indentation of the effective level, and
/// the lines are joined with `"\n"`.
pub open spec fn spec_auto_indent(ls: Seq<Seq<char>>, start_line: int, content: Seq<char>) -> Seq<char> {
    let src = source_lines(ls, start_line);
    let tabs = style_uses_tabs(src);
    let spaces = style_spaces(src) as nat;
    let level = expected_level(ls, start_line);
    let cl = str_lines(content);
    let m = content_min(cl);
    let e = indent_len(spaces, tabs, effective_level(cl, level));
    let c = if tabs {
        '\t'
    } else {
        ' '
    };
    if auto_indent_rewrites(ls, start_line, content) {
        join_nl(cl.map_values(|l: Seq<char>| shift_line(l, m, c, e)))
    } else {
        content
    }
}

/// Whether the content's body lines sit shallower than the expected indentation.
pub open spec fn spec_needs_fix(ls: Seq<Seq<char>>, start_line: int, content: Seq<char>) -> bool {
    let src = source_lines(ls, start_line);
    let e = indent_len(style_spaces(src) as nat, style_uses_tabs(src), expected_level(ls, start_line));
    e != 0 && content_min(str_lines(content)) < e
}

fn shift_exec(l: &Vec<char>, m: usize, c: char, e: usize) -> (r: Vec<char>)
    requires
        m <= e,
    ensures
        r@ == shift_line(l@, m as nat, c, e as nat),
{
    if is_blank(l) {
        return l.clone();
    }
    let a = count_leading_ws(l);
    proof {
        lemma_lead_len_bounds(l@, |c: char| is_ws(c));
    }
    let mut r: Vec<char> = Vec::new();
    let mut j: usize = 0;
    while j < e
        invariant
            j <= e,
            r@ == repeat_char(c, j as nat),
        decreases e - j,
    {
        r.push(c);
        j = j + 1;
        assert(r@ =~= repeat_char(c, j as nat));
    }
    if a < m {
        let n = e - (m - a);
        let mut r: Vec<char> = Vec::new();
        let mut j: usize = 0;
        while j < n
            invariant
                j <= n,
                r@ == repeat_char(c, j as nat),
            decreases n - j,
        {
            r.push(c);
            j = j + 1;
            assert(r@ =~= repeat_char(c, j as nat));
        }
        let ghost head = r@;
        let mut j = a;
        while j < l.len()
            invariant
                a <= j <= l@.len(),
                a == lead_ws(l@),
                r@ == head + l@.subrange(a as int, j as int),
            decreases l.len() - j,
        {
            r.push(l[j]);
            j = j + 1;
        }
        assert(l@.subrange(a as int, l@.len() as int) == trim_start(l@));
        return r;
    }
    let ghost base = r@;
    let over = a - m;
    let mut j: usize = 0;
    while j < over
        invariant
            j <= over,
            r@ == base + repeat_char(' ', j as nat),
        decreases over - j,
    {
        r.push(' ');
        j = j + 1;
        assert(r@ =~= base + repeat_char(' ', j as nat));
    }
    let ghost mid = r@;
    let mut j = a;
    while j < l.len()
        invariant
            a <= j <= l@.len(),
            a == lead_ws(l@),
            r@ == mid + l@.subrange(a as int, j as int),
        decreases l.len() - j,
    {
        r.push(l[j]);
        j = j + 1;
    }
    assert(l@.subrange(a as int, l@.len() as int) == trim_start(l@));
    r
}

/// The pieces shared by `auto_indent_content` and `needs_indent_fix`:
/// the content lines, the expected style and level, and the minimum body
/// indentation.
fn content_context(all_lines: &[String], start_line: usize, content: &str) -> (r: (
    Vec<Vec<char>>,
    IndentStyle,
    usize,
    usize,
))
    requires
        expected_fits(strs(all_lines@), start_line as int),
    ensures
        r.0@.map_values(|l: Vec<char>| l@) == str_lines(content@),
        style_of(source_lines(strs(all_lines@), start_line as int), r.1),
        r.2 == expected_level(strs(all_lines@), start_line as int),
        r.1.indent_fits(r.2 as nat),
        r.3 == content_min(str_lines(content@)),
{
    let (style, level) = detect_expected_indent(all_lines, start_line);
    let cl = str_lines_exec(content);
    let m: usize = match min_body_leading(&cl) {
        Some(m) => m,
        None => 0,
    };
    (cl, style, level, m)
}

/// Adjusts indentation of content to match the surrounding context.
///
/// Finds the minimum leading whitespace of the content's body lines and, when
/// it is below the expected indentation, shifts every non-blank line by the
/// delta from that minimum to the expected base indentation, so that
/// multi-level content keeps its structure. Content already at or above
/// the expected indentation is returned unchanged.
pub fn auto_indent_content(
    all_lines: &[String],
    start_line: usize,
    _end_line: usize,
    content: &str,
) -> (r: String)
    requires
        expected_fits(strs(all_lines@), start_line as int),
    ensures
        r@ == spec_auto_indent(strs(all_lines@), start_line as int, content@),
{
    let ghost ls = strs(all_lines@);
    let (cl, style, level, m) = content_context(all_lines, start_line, content);
    let ghost clv = str_lines(content@);
    let e0: usize = if style.uses_tabs {
        level
    } else {
        style.spaces * level
    };
    if e0 == 0 {
        return copy_str(content);
    }
    let first = first_nonblank(&cl);
    let closer = match first {
        Some(i) => is_closer_exec(&cl[i]),
        None => false,
    };
    proof {
        match first {
            Some(i) => {
                assert(clv[i as int] == cl@[i as int]@);
                if closer {
                    assert(opens_with_closer(clv));
                } else {
                    assert forall|k: int|
                        0 <= k < clv.len() && !all_ws(#[trigger] clv[k]) && is_closer(clv[k])
                        implies exists|j: int| 0 <= j < k && !all_ws(#[trigger] clv[j]) by {
                        assert(clv[k] == cl@[k]@);
                        if k > i {
                            assert(!all_ws(clv[i as int]));
                        } else if k < i {
                            assert(all_ws(cl@[k]@));
                        }
                    }
                }
            },
            None => {
                assert forall|k: int| 0 <= k < clv.len() implies all_ws(#[trigger] clv[k]) by {
                    assert(clv[k] == cl@[k]@);
                }
            },
        }
    }
    let eff = if closer && level > 0 {
        level - 1
    } else {
        level
    };
    assert(eff == effective_level(clv, level as nat));
    let e: usize = if style.uses_tabs {
        eff
    } else {
        assert(style.spaces * eff <= style.spaces * level) by (nonlinear_arith)
            requires
                eff <= level,
        ;
        style.spaces * eff
    };
    if m >= e {
        return copy_str(content);
    }
    let c = if style.uses_tabs {
        '\t'
    } else {
        ' '
    };
    let mut out: Vec<Vec<char>> = Vec::new();
    let mut k: usize = 0;
    while k < cl.len()
        invariant
            k <= cl@.len(),
            clv == cl@.map_values(|l: Vec<char>| l@),
            clv == str_lines(content@),
            m == content_min(clv),
            m < e,
            auto_indent_rewrites(ls, start_line as int, content@),
            out@.map_values(|l: Vec<char>| l@) == clv.take(k as int).map_values(
                |l: Seq<char>| shift_line(l, m as nat, c, e as nat),
            ),
        decreases cl.len() - k,
    {
        proof {
            assert(clv[k as int] == cl@[k as int]@);
        }
        let f = shift_exec(&cl[k], m, c, e);
        let ghost before = out@;
        out.push(f);
        proof {
            assert(out@.map_values(|l: Vec<char>| l@) =~= before.map_values(|l: Vec<char>| l@).push(f@));
            assert(clv.take(k + 1) =~= clv.take(k as int).push(clv[k as int]));
            assert(clv.take(k + 1).map_values(|l: Seq<char>| shift_line(l, m as nat, c, e as nat))
                =~= clv.take(k as int).map_values(|l: Seq<char>| shift_line(l, m as nat, c, e as nat)).push(
                shift_line(clv[k as int], m as nat, c, e as nat),
            ));
        }
        k = k + 1;
    }
    assert(clv.take(cl@.len() as int) == clv);
    join_nl_exec(&out)
}


/// Returns true if the content's minimum indentation is less than expected.
pub fn needs_indent_fix(
    all_lines: &[String],
    start_line: usize,
    _end_line: usize,
    content: &str,
) -> (b: bool)
    requires
        expected_fits(strs(all_lines@), start_line as int),
    ensures
        b == spec_needs_fix(strs(all_lines@), start_line as int, content@),
{
    let (_cl, style, level, m) = content_context(all_lines, start_line, content);
    let e0: usize = if style.uses_tabs {
        level
    } else {
        style.spaces * level
    };
    e0 != 0 && m < e0
}

// ---------------------------------------------------------------------------
// Laws
// ---------------------------------------------------------------------------

/// Rounding to the nearest level: the level's indentation is within half a
/// step of the whitespace count (7 spaces in a 4-space file is level 2).
pub proof fn law_round_is_nearest(lead: nat, step: nat)
    requires
        step > 0,
    ensures
        2 * (spec_round(lead, step) * step - lead) <= step,
        2 * (lead - spec_round(lead, step) * step) <= step,
{
    let q = lead / step;
    let r = lead % step;
    assert(lead == q * step + r) by (nonlinear_arith)
        requires
            step > 0,
            q == lead / step,
            r == lead % step,
    ;
    assert(0 <= r < step);
    if r > step / 2 {
        assert((q + 1) * step == q * step + step) by (nonlinear_arith);
    }
}

/// Content whose body lines are already at least as deep as expected is
/// left unchanged by the automatic re-indentation.
pub proof fn law_auto_indent_keeps_sufficient_content(
    ls: Seq<Seq<char>>,
    start_line: int,
    content: Seq<char>,
)
    requires
        !spec_needs_fix(ls, start_line, content),
    ensures
        spec_auto_indent(ls, start_line, content) == content,
{
    let src = source_lines(ls, start_line);
    let tabs = style_uses_tabs(src);
    let spaces = style_spaces(src) as nat;
    let level = expected_level(ls, start_line);
    let cl = str_lines(content);
    let eff = effective_level(cl, level);
    assert(indent_len(spaces, tabs, eff) <= indent_len(spaces, tabs, level)) by (nonlinear_arith)
        requires
            eff <= level,
            indent_len(spaces, tabs, eff) == if tabs { eff } else { spaces * eff },
            indent_len(spaces, tabs, level) == if tabs { level } else { spaces * level },
    ;
}

/// A line re-indented with a whitespace indentation: the indentation is its
/// whole leading whitespace, the rest of the line is kept, and whether it is
/// blank or a closer does not change.
proof fn lemma_reindent_line(indent: Seq<char>, l: Seq<char>)
    requires
        forall|i: int| 0 <= i < indent.len() ==> is_ws(#[trigger] indent[i]),
        !all_ws(l),
    ensures
        lead_ws(reindent_line(indent, l)) == indent.len(),
        trim_start(reindent_line(indent, l)) == trim_start(l),
        !all_ws(reindent_line(indent, l)),
        is_closer(reindent_line(indent, l)) == is_closer(l),
{
    let a = lead_ws(l);
    lemma_lead_len_bounds(l, |ch: char| is_ws(ch));
    if a == l.len() {
        assert(all_ws(l));
    }
    let t = l.skip(a as int);
    let r = indent + t;
    assert(r == reindent_line(indent, l));
    assert(r[indent.len() as int] == l[a as int]);
    assert forall|j: int| 0 <= j < indent.len() implies is_ws(#[trigger] r[j]) by {
        assert(r[j] == indent[j]);
    }
    lemma_lead_len(r, |ch: char| is_ws(ch), indent.len() as int);
    assert(r.skip(indent.len() as int) =~= t);
}

/// Re-indenting every line moves the smallest body indentation to the
/// indentation's length, and keeps whether there are body lines.
proof fn lemma_min_body_reindent(indent: Seq<char>, repl: Seq<Seq<char>>)
    requires
        forall|i: int| 0 <= i < indent.len() ==> is_ws(#[trigger] indent[i]),
    ensures
        min_body_lead(repl.map_values(|l: Seq<char>| reindent_line(indent, l))) == match min_body_lead(
            repl,
        ) {
            Some(_) => Some(indent.len()),
            None => None::<nat>,
        },
        has_content(repl.map_values(|l: Seq<char>| reindent_line(indent, l))) == has_content(repl),
    decreases repl.len(),
{
    let f = |l: Seq<char>| reindent_line(indent, l);
    let r = repl.map_values(f);
    if repl.len() > 0 {
        let init = repl.drop_last();
        let l = repl.last();
        lemma_min_body_reindent(indent, init);
        assert(r.drop_last() =~= init.map_values(f));
        assert(r.last() == reindent_line(indent, l));
        if !all_ws(l) {
            lemma_reindent_line(indent, l);
        }
        assert(has_content(r) == has_content(repl)) by {
            if has_content(repl) {
                let i = choose|i: int| 0 <= i < repl.len() && !all_ws(#[trigger] repl[i]);
                lemma_reindent_line(indent, repl[i]);
                assert(r[i] == reindent_line(indent, repl[i]));
            }
            if has_content(r) {
                let i = choose|i: int| 0 <= i < r.len() && !all_ws(#[trigger] r[i]);
                assert(r[i] == reindent_line(indent, repl[i]));
                if all_ws(repl[i]) {
                    assert(r[i] == repl[i]);
                }
            }
        }
    } else {
        assert(!has_content(r));
        assert(!has_content(repl));
    }
}

/// A suggested fix passes: when validation refuses a replacement, the same
/// lines re-indented as its suggested fix suggests (every non-blank line
/// moved to the expected indentation) are accepted.
pub proof fn law_suggested_fix_passes(ls: Seq<Seq<char>>, start_line: int, repl: Seq<Seq<char>>)
    requires
        expected_fits(ls, start_line),
        !spec_validate(ls, start_line, repl).0,
    ensures
        spec_validate(
            ls,
            start_line,
            repl.map_values(|l: Seq<char>| reindent_line(expected_indent(ls, start_line), l)),
        ).0,
{
    let indent = expected_indent(ls, start_line);
    let src = source_lines(ls, start_line);
    let level = expected_level(ls, start_line);
    assert forall|i: int| 0 <= i < indent.len() implies is_ws(#[trigger] indent[i]) by {
        if style_uses_tabs(src) {
            assert(indent[i] == '\t');
        } else {
            assert(indent[i] == ' ');
        }
    }
    assert(indent.len() <= usize::MAX);
    lemma_min_body_reindent(indent, repl);
}

proof fn lemma_last_nonblank_facts(ls: Seq<Seq<char>>, s: int)
    ensures
        last_nonblank_before(ls, s) matches Some(k) ==> 0 <= k < s && k < ls.len() && !all_ws(ls[k])
            && forall|j: int| k < j < s ==> j >= ls.len() || all_ws(#[trigger] ls[j]),
    decreases s,
{
    if s > 0 && !(s - 1 < ls.len() && !all_ws(ls[s - 1])) {
        lemma_last_nonblank_facts(ls, s - 1);
    }
}

/// The backward scan stops at the first non-blank line it meets when that
/// line's indentation is a whole number of steps.
proof fn lemma_scan_stops_at_exact(ls: Seq<Seq<char>>, step: nat, i: int, lo: int, k: int)
    requires
        step >= 1,
        lo <= k < i,
        k < ls.len(),
        !all_ws(ls[k]),
        lead_ws(ls[k]) % step == 0,
        forall|j: int| k < j < i ==> j >= ls.len() || all_ws(#[trigger] ls[j]),
    ensures
        scan_best(ls, step, i, lo, None, -1) == Some(lead_ws(ls[k]) / step),
    decreases i - lo,
{
    if i - 1 > k {
        assert(i - 1 >= ls.len() || all_ws(ls[i - 1]));
        lemma_scan_stops_at_exact(ls, step, i - 1, lo, k);
    } else {
        assert(spec_quality(lead_ws(ls[k]), step) >= 0);
    }
}

/// `{` stands at `p` and no brace follows it.
pub open spec fn open_brace_at(t: Seq<char>, p: int) -> bool {
    0 <= p < t.len() && t[p] == '{' && forall|q: int| p < q < t.len() ==> #[trigger] t[q] != '{' && t[q] != '}'
}

proof fn lemma_last_brace_facts(t: Seq<char>)
    ensures
        last_brace(t) matches Some(p) ==> 0 <= p < t.len() && (t[p] == '{' || t[p] == '}') && forall|q: int|
            p < q < t.len() ==> #[trigger] t[q] != '{' && t[q] != '}',
        last_brace(t) is None ==> forall|q: int| 0 <= q < t.len() ==> #[trigger] t[q] != '{' && t[q] != '}',
    decreases t.len(),
{
    if t.len() > 0 {
        let u = t.drop_last();
        lemma_last_brace_facts(u);
        assert forall|q: int| 0 <= q < u.len() implies #[trigger] t[q] == u[q] by {}
    }
}

proof fn lemma_last_brace_opens(t: Seq<char>)
    ensures
        (last_brace(t) matches Some(p) && t[p] == '{') <==> exists|p: int| open_brace_at(t, p),
{
    lemma_last_brace_facts(t);
    if let Some(p) = last_brace(t) {
        if t[p] == '{' {
            assert(open_brace_at(t, p));
        }
    }
    if exists|p: int| open_brace_at(t, p) {
        let p0 = choose|p: int| open_brace_at(t, p);
        match last_brace(t) {
            Some(p) => {
                if p > p0 {
                    assert(t[p] != '{' && t[p] != '}');
                } else if p < p0 {
                    assert(t[p0] != '{');
                }
            },
            None => {
                assert(t[p0] != '{');
            },
        }
    }
}

/// A line that opens a block or a continuation deepens the next one: when
/// the last non-blank line before the edit site lies within the 20 lines the
/// scan looks at and is indented by a whole number of steps, the expected
/// level is one deeper than that line's when, with its trailing comment
/// stripped, it ends with `:`, `(` or `[`, or its last brace is `{`;
/// otherwise, when the line at the edit site is blank or past the end, the
/// expected level is that line's own.
pub proof fn law_opener_deepens_next_line(ls: Seq<Seq<char>>, start_line: int, k: int)
    requires
        last_nonblank_before(ls, sat_dec(start_line)) == Some(k),
        sat_dec(start_line) - k <= 20,
        lead_ws(ls[k]) % expected_step(ls, start_line) == 0,
    ensures
        ({
            let t = spec_strip_comment(trim_end(ls[k]));
            let base = lead_ws(ls[k]) / expected_step(ls, start_line);
            let s = sat_dec(start_line);
            let opener = (t.len() > 0 && (t.last() == ':' || t.last() == '(' || t.last() == '[')) || exists|p: int|
                open_brace_at(t, p);
            &&& expected_level(ls, start_line) >= base
            &&& opener ==> expected_level(ls, start_line) >= base + 1
            &&& opener && (s >= ls.len() || all_ws(ls[s])) ==> expected_level(ls, start_line) == base + 1
            &&& !opener && (s >= ls.len() || all_ws(ls[s])) ==> expected_level(ls, start_line) == base
        }),
{
    let s = sat_dec(start_line);
    let step = expected_step(ls, start_line);
    lemma_last_nonblank_facts(ls, s);
    assert(step >= 1);
    lemma_scan_stops_at_exact(ls, step, s, sat_sub(s, 20), k);
    assert(scanned_level(ls, start_line) == Some(lead_ws(ls[k]) / step));
    assert(spec_round(lead_ws(ls[k]), step) == lead_ws(ls[k]) / step);
    lemma_last_brace_opens(spec_strip_comment(trim_end(ls[k])));
}

/// A body line's standing and depth do not change when its final newline
/// is dropped.
proof fn lemma_drop_final_newline(l: Seq<char>)
    requires
        l.len() > 0,
        l.last() == '\n',
    ensures
        is_body_line(l.drop_last()) == is_body_line(l),
        is_body_line(l) ==> lead_ws(l.drop_last()) == lead_ws(l),
{
    let x = l.drop_last();
    assert(is_ws('\n'));
    assert(all_ws(x) ==> all_ws(l)) by {
        if all_ws(x) {
            assert forall|i: int| 0 <= i < l.len() implies #[trigger] is_ws(l[i]) by {
                if i < x.len() {
                    assert(l[i] == x[i]);
                    assert(is_ws(x[i]));
                }
            }
        }
    }
    assert(all_ws(l) ==> all_ws(x)) by {
        if all_ws(l) {
            assert forall|i: int| 0 <= i < x.len() implies #[trigger] is_ws(x[i]) by {
                assert(x[i] == l[i]);
                assert(is_ws(l[i]));
            }
        }
    }
    if !all_ws(x) {
        lemma_lead_len_bounds(x, |c: char| is_ws(c));
        let n = lead_ws(x) as int;
        if n == x.len() {
            assert forall|i: int| 0 <= i < x.len() implies #[trigger] is_ws(x[i]) by {
                assert((|c: char| is_ws(c))(x[i]));
            }
            assert(false);
        }
        assert forall|j: int| 0 <= j < n implies (|c: char| is_ws(c))(#[trigger] l[j]) by {
            assert(l[j] == x[j]);
            assert((|c: char| is_ws(c))(x[j]));
        }
        assert(l[n] == x[n]);
        lemma_lead_len(l, |c: char| is_ws(c), n);
        assert(trim_start(l)[0] == l[n]);
        assert(trim_start(x)[0] == x[n]);
    }
}

/// The pieces of lines split at their final newlines have the same body
/// depth as the lines.
proof fn lemma_min_body_pieces(ls: Seq<Seq<char>>)
    ensures
        min_body_lead(all_pieces(ls)) == min_body_lead(ls),
    decreases ls.len(),
{
    if ls.len() > 0 {
        let init = ls.drop_last();
        let l = ls.last();
        lemma_min_body_pieces(init);
        let p = all_pieces(init);
        lemma_min_body_push(init, l);
        if l.len() > 0 && l.last() == '\n' {
            let x = l.drop_last();
            assert(all_pieces(ls) =~= p.push(x).push(seq![]));
            lemma_min_body_push(p, x);
            lemma_min_body_push(p.push(x), seq![]);
            assert(all_ws(Seq::<char>::empty()));
            lemma_drop_final_newline(l);
        } else {
            assert(all_pieces(ls) =~= p.push(l));
            lemma_min_body_push(p, l);
        }
    }
}

proof fn lemma_min_body_content(ls: Seq<Seq<char>>)
    requires
        min_body_lead(ls) is Some,
    ensures
        has_content(ls),
    decreases ls.len(),
{
    let init = ls.drop_last();
    if min_body_lead(init) is Some {
        lemma_min_body_content(init);
        let i = choose|i: int| 0 <= i < init.len() && !all_ws(#[trigger] init[i]);
        assert(ls[i] == init[i]);
    } else {
        assert(is_body_line(ls.last()));
        assert(!all_ws(ls[ls.len() - 1]));
    }
}

/// The suggested fix passes as the text it is handed out as: when
/// validation refuses a replacement whose lines hold a newline at most as
/// their last character, the fix text split again at its newlines is
/// accepted.
pub proof fn law_suggested_fix_text_passes(ls: Seq<Seq<char>>, start_line: int, repl: Seq<Seq<char>>)
    requires
        expected_fits(ls, start_line),
        !spec_validate(ls, start_line, repl).0,
        forall|k: int| 0 <= k < repl.len() ==> newline_only_last(#[trigger] repl[k]),
    ensures
        spec_validate(ls, start_line, split_nl(spec_validate(ls, start_line, repl).2->Some_0)).0,
{
    let indent = expected_indent(ls, start_line);
    let src = source_lines(ls, start_line);
    let mapped = repl.map_values(|l: Seq<char>| reindent_line(indent, l));
    assert(spec_validate(ls, start_line, repl).2 == Some(join_nl(mapped)));
    assert(has_content(repl));
    assert(repl.len() >= 1);
    assert forall|k: int| 0 <= k < mapped.len() implies newline_only_last(#[trigger] mapped[k]) by {
        let l = repl[k];
        assert(newline_only_last(l));
        if !all_ws(l) {
            lemma_lead_len_bounds(l, |c: char| is_ws(c));
            let t = trim_start(l);
            assert forall|j: int| 0 <= j < mapped[k].len() - 1 implies #[trigger] mapped[k][j] != '\n' by {
                if j < indent.len() {
                    if style_uses_tabs(src) {
                        assert(indent[j] == '\t');
                    } else {
                        assert(indent[j] == ' ');
                    }
                } else {
                    assert(mapped[k][j] == t[j - indent.len()]);
                    assert(t[j - indent.len()] == l[j - indent.len() + lead_ws(l)]);
                }
            }
        }
    }
    lemma_split_join_nl_pieces(mapped);
    law_suggested_fix_passes(ls, start_line, repl);
    lemma_min_body_pieces(mapped);
    assert(indent.len() <= usize::MAX);
    if min_body_lead(mapped) is Some {
        lemma_min_body_content(mapped);
    }
}

/// Re-indentation shifts every non-blank line by the same amount: its new
/// leading whitespace is its old one plus `e - m` (the delta from the
/// content's minimum to the base indentation), and the rest of the line is
/// kept.
pub proof fn law_shift_is_uniform(l: Seq<char>, m: nat, c: char, e: nat)
    requires
        is_ws(c),
        !all_ws(l),
        m <= e,
    ensures
        lead_ws(shift_line(l, m, c, e)) == lead_ws(l) + e - m,
        trim_start(shift_line(l, m, c, e)) == trim_start(l),
{
    let t = shift_line(l, m, c, e);
    let a = lead_ws(l);
    let n = (a + e - m) as nat;
    lemma_lead_len_bounds(l, |ch: char| is_ws(ch));
    if a == l.len() {
        assert forall|i: int| 0 <= i < l.len() implies is_ws(#[trigger] l[i]) by {}
        assert(all_ws(l));
    }
    assert(trim_start(l) == l.skip(a as int));
    if a >= m {
        assert(t == repeat_char(c, e) + repeat_char(' ', (a - m) as nat) + l.skip(a as int));
        assert forall|j: int| 0 <= j < n implies is_ws(#[trigger] t[j]) by {
            if j < e {
                assert(t[j] == c);
            } else {
                assert(t[j] == ' ');
            }
        }
    } else {
        assert(t == repeat_char(c, n) + l.skip(a as int));
        assert forall|j: int| 0 <= j < n implies is_ws(#[trigger] t[j]) by {
            assert(t[j] == c);
        }
    }
    assert(t[n as int] == l[a as int]);
    lemma_lead_len(t, |ch: char| is_ws(ch), n as int);
    assert(t.skip(n as int) =~= l.skip(a as int));
}

} // verus!
