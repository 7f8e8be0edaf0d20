//! Character-level text model: whitespace, trimming, line splitting,
//! decimal numbers, and the string builders the rest of the library uses.
use vstd::prelude::*;

verus! {

// ---------------------------------------------------------------------------
// Whitespace
// ---------------------------------------------------------------------------

/// Unicode `White_Space`, the property that `char::is_whitespace` tests.
pub open spec fn is_ws(c: char) -> bool {
    let u = c as u32;
    ||| 0x09 <= u <= 0x0d
    ||| u == 0x20
    ||| u == 0x85
    ||| u == 0xa0
    ||| u == 0x1680
    ||| 0x2000 <= u <= 0x200a
    ||| u == 0x2028
    ||| u == 0x2029
    ||| u == 0x202f
    ||| u == 0x205f
    ||| u == 0x3000
}

/// Whether `c` is whitespace in the sense of `char::is_whitespace`.
pub fn is_whitespace(c: char) -> (b: bool)
    ensures
        b == is_ws(c),
{
    let u = c as u32;
    (0x09 <= u && u <= 0x0d) || u == 0x20 || u == 0x85 || u == 0xa0 || u == 0x1680 || (0x2000
        <= u && u <= 0x200a) || u == 0x2028 || u == 0x2029 || u == 0x202f || u == 0x205f || u
        == 0x3000
}

/// Every character of `s` is whitespace (so `s.trim()` is empty).
pub open spec fn all_ws(s: Seq<char>) -> bool {
    forall|i: int| 0 <= i < s.len() ==> #[trigger] is_ws(s[i])
}

pub open spec fn is_space(c: char) -> bool {
    c == ' '
}

pub open spec fn is_tab(c: char) -> bool {
    c == '\t'
}

/// Length of the longest prefix of `s` whose characters all satisfy `p`.
pub open spec fn lead_len(s: Seq<char>, p: spec_fn(char) -> bool) -> nat
    decreases s.len(),
{
    if s.len() > 0 && p(s[0]) {
        1 + lead_len(s.drop_first(), p)
    } else {
        0
    }
}

/// Length of the longest suffix of `s` whose characters all satisfy `p`.
pub open spec fn trail_len(s: Seq<char>, p: spec_fn(char) -> bool) -> nat
    decreases s.len(),
{
    if s.len() > 0 && p(s.last()) {
        1 + trail_len(s.drop_last(), p)
    } else {
        0
    }
}

/// Number of leading whitespace characters (`chars().take_while(is_whitespace).count()`).
pub open spec fn lead_ws(s: Seq<char>) -> nat {
    lead_len(s, |c: char| is_ws(c))
}

/// Number of leading `' '` characters.
pub open spec fn lead_spaces(s: Seq<char>) -> nat {
    lead_len(s, |c: char| c == ' ')
}

/// Number of leading `'\t'` characters.
pub open spec fn lead_tabs(s: Seq<char>) -> nat {
    lead_len(s, |c: char| c == '\t')
}

/// `str::trim_start`.
pub open spec fn trim_start(s: Seq<char>) -> Seq<char> {
    s.skip(lead_ws(s) as int)
}

/// `str::trim_end`.
pub open spec fn trim_end(s: Seq<char>) -> Seq<char> {
    s.take(s.len() - trail_len(s, |c: char| is_ws(c)))
}

/// `str::trim`.
pub open spec fn trim(s: Seq<char>) -> Seq<char> {
    trim_end(trim_start(s))
}

/// The characterisation of `lead_len` by its defining property.
pub proof fn lemma_lead_len(s: Seq<char>, p: spec_fn(char) -> bool, n: int)
    requires
        0 <= n <= s.len(),
        forall|j: int| 0 <= j < n ==> p(#[trigger] s[j]),
        n == s.len() || !p(s[n]),
    ensures
        lead_len(s, p) == n,
    decreases n,
{
    if n > 0 {
        assert forall|j: int| 0 <= j < n - 1 implies p(#[trigger] s.drop_first()[j]) by {
            assert(p(s[j + 1]));
        }
        lemma_lead_len(s.drop_first(), p, n - 1);
    }
}

/// `lead_len` is at most the length, and the characters it counts satisfy `p`.
pub proof fn lemma_lead_len_bounds(s: Seq<char>, p: spec_fn(char) -> bool)
    ensures
        lead_len(s, p) <= s.len(),
        forall|j: int| 0 <= j < lead_len(s, p) ==> p(#[trigger] s[j]),
        lead_len(s, p) == s.len() || !p(s[lead_len(s, p) as int]),
    decreases s.len(),
{
    if s.len() > 0 && p(s[0]) {
        lemma_lead_len_bounds(s.drop_first(), p);
        assert forall|j: int| 0 <= j < lead_len(s, p) implies p(#[trigger] s[j]) by {
            if j > 0 {
                assert(s[j] == s.drop_first()[j - 1]);
            }
        }
    }
}

/// The characterisation of `trail_len` by its defining property.
pub proof fn lemma_trail_len(s: Seq<char>, p: spec_fn(char) -> bool, n: int)
    requires
        0 <= n <= s.len(),
        forall|j: int| s.len() - n <= j < s.len() ==> p(#[trigger] s[j]),
        n == s.len() || !p(s[s.len() - n - 1]),
    ensures
        trail_len(s, p) == n,
    decreases n,
{
    if n > 0 {
        let t = s.drop_last();
        assert forall|j: int| t.len() - (n - 1) <= j < t.len() implies p(#[trigger] t[j]) by {
            assert(t[j] == s[j]);
        }
        if n - 1 != t.len() {
            assert(t[t.len() - (n - 1) - 1] == s[s.len() - n - 1]);
        }
        lemma_trail_len(t, p, n - 1);
    } else {
        if s.len() > 0 {
            assert(!p(s.last()));
        }
    }
}

/// Number of leading characters of `v` satisfying `' '`-ness, computed.
pub fn count_leading_spaces(v: &Vec<char>) -> (n: usize)
    ensures
        n == lead_spaces(v@),
{
    let mut i: usize = 0;
    while i < v.len() && v[i] == ' '
        invariant
            i <= v@.len(),
            forall|j: int| 0 <= j < i ==> #[trigger] v@[j] == ' ',
        decreases v.len() - i,
    {
        i = i + 1;
    }
    proof {
        lemma_lead_len(v@, |c: char| c == ' ', i as int);
    }
    i
}

/// Number of leading `'\t'` characters of `v`.
pub fn count_leading_tabs(v: &Vec<char>) -> (n: usize)
    ensures
        n == lead_tabs(v@),
{
    let mut i: usize = 0;
    while i < v.len() && v[i] == '\t'
        invariant
            i <= v@.len(),
            forall|j: int| 0 <= j < i ==> #[trigger] v@[j] == '\t',
        decreases v.len() - i,
    {
        i = i + 1;
    }
    proof {
        lemma_lead_len(v@, |c: char| c == '\t', i as int);
    }
    i
}

/// Number of leading whitespace characters of `v`.
pub fn count_leading_ws(v: &Vec<char>) -> (n: usize)
    ensures
        n == lead_ws(v@),
{
    let mut i: usize = 0;
    while i < v.len() && is_whitespace(v[i])
        invariant
            i <= v@.len(),
            forall|j: int| 0 <= j < i ==> is_ws(#[trigger] v@[j]),
        decreases v.len() - i,
    {
        i = i + 1;
    }
    proof {
        lemma_lead_len(v@, |c: char| is_ws(c), i as int);
    }
    i
}

/// Number of trailing whitespace characters of `v`.
pub fn count_trailing_ws(v: &Vec<char>) -> (n: usize)
    ensures
        n == trail_len(v@, |c: char| is_ws(c)),
{
    let mut n: usize = 0;
    while n < v.len() && is_whitespace(v[v.len() - 1 - n])
        invariant
            n <= v@.len(),
            forall|j: int| v@.len() - n <= j < v@.len() ==> is_ws(#[trigger] v@[j]),
        decreases v.len() - n,
    {
        n = n + 1;
    }
    proof {
        lemma_trail_len(v@, |c: char| is_ws(c), n as int);
    }
    n
}

/// Whether every character of `v` is whitespace (`s.trim().is_empty()`).
pub fn is_blank(v: &Vec<char>) -> (b: bool)
    ensures
        b == all_ws(v@),
{
    let n = count_leading_ws(v);
    proof {
        lemma_lead_len_bounds(v@, |c: char| is_ws(c));
        if n < v@.len() {
            assert(!is_ws(v@[n as int]));
        }
    }
    n == v.len()
}

/// `trail_len` is at most the length, and the last counted-past character fails `p`.
pub proof fn lemma_trail_len_bound(s: Seq<char>, p: spec_fn(char) -> bool)
    ensures
        trail_len(s, p) <= s.len(),
        trail_len(s, p) == s.len() || !p(s[s.len() - trail_len(s, p) - 1]),
        forall|j: int| s.len() - trail_len(s, p) <= j < s.len() ==> p(#[trigger] s[j]),
    decreases s.len(),
{
    if s.len() > 0 && p(s.last()) {
        lemma_trail_len_bound(s.drop_last(), p);
        assert forall|j: int| s.len() - trail_len(s, p) <= j < s.len() implies p(
            #[trigger] s[j],
        ) by {
            if j < s.len() - 1 {
                assert(s[j] == s.drop_last()[j]);
            }
        }
        if trail_len(s, p) < s.len() {
            assert(s[s.len() - trail_len(s, p) - 1] == s.drop_last()[s.drop_last().len()
                - trail_len(s.drop_last(), p) - 1]);
        }
    }
}

// ---------------------------------------------------------------------------
// Building strings
// ---------------------------------------------------------------------------

/// Appends one character to a `String`.
///
/// Calls `String::push`; the contract claims the new contents are the old
/// contents followed by `c`, as std documents.
#[verifier::external_body]
pub(crate) fn push_char(s: &mut String, c: char)
    ensures
        final(s)@ == old(s)@.push(c),
{
    s.push(c);
}

/// Appends a string slice to a `String`.
pub(crate) fn push_str(s: &mut String, t: &str)
    ensures
        final(s)@ == old(s)@ + t@,
{
    s.append(t);
}

/// The characters of `s`, in order.
pub fn chars_of(s: &str) -> (res: Vec<char>)
    ensures
        res@ == s@,
{
    let mut res: Vec<char> = Vec::new();
    for c in it: s.chars()
        invariant
            res@ == it.seq().take(it.index() as int),
            it.seq() == s@,
    {
        res.push(c);
    }
    res
}

/// The string made of the characters `v[from..to]`.
pub fn string_of_range(v: &Vec<char>, from: usize, to: usize) -> (res: String)
    requires
        from <= to <= v@.len(),
    ensures
        res@ == v@.subrange(from as int, to as int),
{
    let mut res = String::new();
    let mut i = from;
    while i < to
        invariant
            from <= i <= to <= v@.len(),
            res@ == v@.subrange(from as int, i as int),
        decreases to - i,
    {
        push_char(&mut res, v[i]);
        assert(v@.subrange(from as int, i + 1) == v@.subrange(from as int, i as int).push(v@[i as int]));
        i = i + 1;
    }
    res
}

/// The string made of all characters of `v`.
pub fn string_of(v: &Vec<char>) -> (res: String)
    ensures
        res@ == v@,
{
    let res = string_of_range(v, 0, v.len());
    assert(v@.subrange(0, v@.len() as int) == v@);
    res
}

/// A copy of `s`.
pub fn copy_str(s: &str) -> (res: String)
    ensures
        res@ == s@,
{
    let mut res = String::new();
    push_str(&mut res, s);
    assert(res@ == Seq::<char>::empty() + s@);
    assert(Seq::<char>::empty() + s@ == s@);
    res
}

/// `n` copies of `c`.
pub open spec fn repeat_char(c: char, n: nat) -> Seq<char> {
    Seq::new(n, |_i: int| c)
}

/// Appends `n` copies of `c` to `s`.
pub fn push_repeat(s: &mut String, c: char, n: usize)
    ensures
        final(s)@ == old(s)@ + repeat_char(c, n as nat),
{
    let ghost start = s@;
    let mut i: usize = 0;
    while i < n
        invariant
            i <= n,
            s@ == start + repeat_char(c, i as nat),
        decreases n - i,
    {
        push_char(s, c);
        assert(start + repeat_char(c, (i + 1) as nat) == (start + repeat_char(c, i as nat)).push(c));
        i = i + 1;
    }
}

// ---------------------------------------------------------------------------
// Searching
// ---------------------------------------------------------------------------

/// `pat` occurs in `s` starting at position `i`.
pub open spec fn occurs_at(s: Seq<char>, pat: Seq<char>, i: int) -> bool {
    0 <= i && i + pat.len() <= s.len() && s.subrange(i, i + pat.len()) == pat
}

/// `s.contains(pat)`.
pub open spec fn contains(s: Seq<char>, pat: Seq<char>) -> bool {
    exists|i: int| occurs_at(s, pat, i)
}

/// `s.find(pat)`: the first position where `pat` occurs.
pub open spec fn find(s: Seq<char>, pat: Seq<char>) -> Option<int> {
    if contains(s, pat) {
        Some(choose|i: int| occurs_at(s, pat, i) && forall|j: int| 0 <= j < i ==> !occurs_at(s, pat, j))
    } else {
        None
    }
}

/// `s.starts_with(pat)`.
pub open spec fn starts_with(s: Seq<char>, pat: Seq<char>) -> bool {
    occurs_at(s, pat, 0)
}

/// `s.ends_with(pat)`.
pub open spec fn ends_with(s: Seq<char>, pat: Seq<char>) -> bool {
    occurs_at(s, pat, s.len() - pat.len())
}

/// Whether `pat` occurs in `s` at position `i`, computed.
pub fn occurs_at_exec(s: &Vec<char>, pat: &Vec<char>, i: usize) -> (b: bool)
    ensures
        b == occurs_at(s@, pat@, i as int),
{
    if i > s.len() || pat.len() > s.len() - i {
        return false;
    }
    let mut k: usize = 0;
    let n = s.len();
    while k < pat.len()
        invariant
            n == s@.len(),
            i + pat@.len() <= s@.len(),
            k <= pat@.len(),
            forall|j: int| 0 <= j < k ==> s@[i + j] == pat@[j],
        decreases pat.len() - k,
    {
        if s[i + k] != pat[k] {
            assert(s@.subrange(i as int, i + pat@.len())[k as int] != pat@[k as int]);
            return false;
        }
        k = k + 1;
    }
    assert(s@.subrange(i as int, i + pat@.len()) =~= pat@);
    true
}

/// The first position at which `pat` occurs in `s`, if any.
pub fn find_exec(s: &Vec<char>, pat: &Vec<char>) -> (r: Option<usize>)
    ensures
        match r {
            Some(i) => find(s@, pat@) == Some(i as int),
            None => find(s@, pat@) is None,
        },
{
    let mut i: usize = 0;
    while i <= s.len()
        invariant
            i <= s@.len() + 1,
            forall|j: int| 0 <= j < i ==> !occurs_at(s@, pat@, j),
        decreases s.len() + 1 - i,
    {
        if occurs_at_exec(s, pat, i) {
            proof {
                lemma_find_first(s@, pat@, i as int);
            }
            return Some(i);
        }
        if i == s.len() {
            proof {
                assert forall|j: int| !occurs_at(s@, pat@, j) by {
                    if 0 <= j < i {
                    } else if j == i {
                    }
                }
            }
            return None;
        }
        i = i + 1;
    }
    None
}

/// The first occurrence is what `find` names.
pub proof fn lemma_find_first(s: Seq<char>, pat: Seq<char>, i: int)
    requires
        occurs_at(s, pat, i),
        forall|j: int| 0 <= j < i ==> !occurs_at(s, pat, j),
    ensures
        find(s, pat) == Some(i),
{
    let k = choose|k: int| occurs_at(s, pat, k) && forall|j: int| 0 <= j < k ==> !occurs_at(s, pat, j);
    assert(occurs_at(s, pat, k) && forall|j: int| 0 <= j < k ==> !occurs_at(s, pat, j));
    if k < i {
        assert(!occurs_at(s, pat, k));
    } else if i < k {
        assert(!occurs_at(s, pat, i));
    }
}

/// Where `find` names a position, `pat` occurs there.
pub proof fn lemma_find_some(s: Seq<char>, pat: Seq<char>)
    ensures
        find(s, pat) matches Some(p) ==> occurs_at(s, pat, p) && forall|j: int| 0 <= j < p ==> !occurs_at(s, pat, j),
{
    if contains(s, pat) {
        let w = choose|i: int| occurs_at(s, pat, i);
        let k = choose|k: int| occurs_at(s, pat, k) && forall|j: int| 0 <= j < k ==> !occurs_at(s, pat, j);
        lemma_first_exists(s, pat, w);
    }
}

proof fn lemma_first_exists(s: Seq<char>, pat: Seq<char>, w: int)
    requires
        occurs_at(s, pat, w),
    ensures
        exists|k: int| occurs_at(s, pat, k) && forall|j: int| 0 <= j < k ==> !occurs_at(s, pat, j),
    decreases w,
{
    if exists|j: int| 0 <= j < w && occurs_at(s, pat, j) {
        let j = choose|j: int| 0 <= j < w && occurs_at(s, pat, j);
        lemma_first_exists(s, pat, j);
    } else {
        assert(occurs_at(s, pat, w) && forall|j: int| 0 <= j < w ==> !occurs_at(s, pat, j));
    }
}

/// Whether `pat` occurs anywhere in `s`.
pub fn contains_exec(s: &Vec<char>, pat: &Vec<char>) -> (b: bool)
    ensures
        b == contains(s@, pat@),
{
    match find_exec(s, pat) {
        Some(i) => {
            proof {
                let k = choose|k: int| occurs_at(s@, pat@, k) && forall|j: int| 0 <= j < k ==> !occurs_at(s@, pat@, j);
            }
            true
        },
        None => false,
    }
}

} // verus!

verus! {

/// The characters `v[from..to]` as a new vector.
pub fn subvec(v: &Vec<char>, from: usize, to: usize) -> (res: Vec<char>)
    requires
        from <= to <= v@.len(),
    ensures
        res@ == v@.subrange(from as int, to as int),
{
    let mut res: Vec<char> = Vec::new();
    let mut i = from;
    while i < to
        invariant
            from <= i <= to <= v@.len(),
            res@ == v@.subrange(from as int, i as int),
        decreases to - i,
    {
        res.push(v[i]);
        assert(v@.subrange(from as int, i + 1) == v@.subrange(from as int, i as int).push(v@[i as int]));
        i = i + 1;
    }
    res
}

/// `s.trim()` on characters.
pub fn trim_chars(v: &Vec<char>) -> (res: Vec<char>)
    ensures
        res@ == trim(v@),
{
    let a = count_leading_ws(v);
    proof {
        lemma_lead_len_bounds(v@, |c: char| is_ws(c));
    }
    let u = subvec(v, a, v.len());
    assert(u@ == trim_start(v@));
    let b = count_trailing_ws(&u);
    proof {
        lemma_trail_len_bound(u@, |c: char| is_ws(c));
    }
    subvec(&u, 0, u.len() - b)
}

/// Whether `s` holds exactly the characters of `lit`.
pub fn same_text(s: &str, lit: &str) -> (b: bool)
    ensures
        b == (s@ == lit@),
{
    let a = chars_of(s);
    let l = chars_of(lit);
    if a.len() != l.len() {
        return false;
    }
    let mut i: usize = 0;
    while i < a.len()
        invariant
            a@ == s@,
            l@ == lit@,
            a@.len() == l@.len(),
            i <= a@.len(),
            forall|j: int| 0 <= j < i ==> a@[j] == l@[j],
        decreases a.len() - i,
    {
        if a[i] != l[i] {
            assert(a@[i as int] != l@[i as int]);
            return false;
        }
        i = i + 1;
    }
    assert(a@ =~= l@);
    true
}

} // verus!
