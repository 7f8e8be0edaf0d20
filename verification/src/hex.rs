//! Hex transport encoding: every payload travels as lowercase hexadecimal,
//! so no shell can corrupt it.
use vstd::prelude::*;
use vstd::utf8::{valid_utf8, decode_utf8, encode_utf8, encode_scalar, is_ascii_chars, is_ascii_chars_encode_utf8};
use crate::text::{is_ws, is_whitespace, push_char, push_str, chars_of, copy_str};
use crate::num::{hex_digit_char, hex_digit_char_exec, decimal, push_decimal_u128};

verus! {

/// The two lowercase hex digits of every byte, in order (`hex_encode`).
pub open spec fn hex_of_bytes(b: Seq<u8>) -> Seq<char>
    decreases b.len(),
{
    if b.len() == 0 {
        seq![]
    } else {
        hex_of_bytes(b.drop_last()) + seq![
            hex_digit_char((b.last() / 16) as nat),
            hex_digit_char((b.last() % 16) as nat),
        ]
    }
}

/// Hex encode a byte slice: two lowercase hex digits per byte.
pub fn hex_encode(data: &[u8]) -> (res: String)
    ensures
        res@ == hex_of_bytes(data@),
{
    let mut res = String::new();
    let mut i: usize = 0;
    while i < data.len()
        invariant
            i <= data@.len(),
            res@ == hex_of_bytes(data@.take(i as int)),
        decreases data.len() - i,
    {
        let b = data[i];
        push_char(&mut res, hex_digit_char_exec((b / 16) as u64));
        push_char(&mut res, hex_digit_char_exec((b % 16) as u64));
        proof {
            assert(data@.take(i + 1).drop_last() == data@.take(i as int));
            assert(data@.take(i + 1).last() == b);
        }
        i = i + 1;
    }
    proof {
        assert(data@.take(data@.len() as int) == data@);
    }
    res
}

// ---------------------------------------------------------------------------
// Decoding
// ---------------------------------------------------------------------------

/// `c` is an ASCII hex digit (either letter case).
pub open spec fn is_hex(c: char) -> bool {
    ('0' <= c && c <= '9') || ('a' <= c && c <= 'f') || ('A' <= c && c <= 'F')
}

/// The value of a hex digit.
pub open spec fn hex_val(c: char) -> nat {
    if '0' <= c && c <= '9' {
        (c as u32 - '0' as u32) as nat
    } else if 'a' <= c && c <= 'f' {
        (c as u32 - 'a' as u32 + 10) as nat
    } else {
        (c as u32 - 'A' as u32 + 10) as nat
    }
}

/// `s` with every whitespace character removed.
pub open spec fn remove_ws(s: Seq<char>) -> Seq<char>
    decreases s.len(),
{
    if s.len() == 0 {
        seq![]
    } else if is_ws(s.last()) {
        remove_ws(s.drop_last())
    } else {
        remove_ws(s.drop_last()).push(s.last())
    }
}

/// The bytes that consecutive pairs of hex digits denote.
pub open spec fn pairs_to_bytes(s: Seq<char>) -> Seq<u8>
    decreases s.len(),
{
    if s.len() < 2 {
        seq![]
    } else {
        pairs_to_bytes(s.take(s.len() - 2)).push(
            (hex_val(s[s.len() - 2]) * 16 + hex_val(s[s.len() - 1])) as u8,
        )
    }
}

/// The first index whose character fails `p`.
pub open spec fn first_failing(s: Seq<char>, p: spec_fn(char) -> bool) -> Option<int> {
    if exists|i: int| 0 <= i < s.len() && !p(#[trigger] s[i]) {
        Some(
            choose|i: int|
                0 <= i < s.len() && !p(s[i]) && forall|j: int| 0 <= j < i ==> p(#[trigger] s[j]),
        )
    } else {
        None
    }
}

/// The text of the error that `String::from_utf8` reports for the given bytes
/// when they are not valid UTF-8 (its `Display` output).
pub uninterp spec fn utf8_error_text(bytes: Seq<u8>) -> Seq<char>;

/// Converts bytes to a `String` with `String::from_utf8`.
///
/// The contract claims what std documents: the conversion succeeds exactly
/// when the bytes are valid UTF-8 (vstd's `valid_utf8`), and then the string
/// holds the characters they encode; otherwise the error's text is the named
/// `utf8_error_text` of the bytes.
#[verifier::external_body]
fn string_from_utf8(bytes: Vec<u8>) -> (r: Result<String, String>)
    ensures
        match r {
            Ok(s) => valid_utf8(bytes@) && s@ == decode_utf8(bytes@),
            Err(e) => !valid_utf8(bytes@) && e@ == utf8_error_text(bytes@),
        },
{
    String::from_utf8(bytes).map_err(|e| e.to_string())
}

/// What `hex_decode` returns for `s`: whitespace is skipped; an odd number of
/// remaining bytes, then any non-hex character, is an error; otherwise the
/// digit pairs are bytes, which must be valid UTF-8.
pub open spec fn spec_hex_decode(s: Seq<char>) -> Result<Seq<char>, Seq<char>> {
    let c = remove_ws(s);
    let n = encode_utf8(c).len();
    if n % 2 != 0 {
        Err("odd-length hex string: "@ + decimal(n))
    } else {
        match first_failing(c, |ch: char| is_hex(ch)) {
            Some(i) => Err("invalid hex character: '"@ + seq![c[i]] + "'"@),
            None => {
                let b = pairs_to_bytes(c);
                if valid_utf8(b) {
                    Ok(decode_utf8(b))
                } else {
                    Err("utf8 decode: "@ + utf8_error_text(b))
                }
            },
        }
    }
}

/// The contents of a `Result<String, String>`.
pub open spec fn result_view(r: Result<String, String>) -> Result<Seq<char>, Seq<char>> {
    match r {
        Ok(s) => Ok(s@),
        Err(e) => Err(e@),
    }
}

/// The number of bytes in the UTF-8 encoding of `c`.
fn utf8_width(c: char) -> (w: u8)
    ensures
        w as nat == encode_scalar(c as u32).len(),
{
    proof {
        vstd::utf8::char_is_scalar(c);
    }
    let u = c as u32;
    if u <= 0x7f {
        1
    } else if u <= 0x7ff {
        2
    } else if u <= 0xffff {
        3
    } else {
        4
    }
}

/// UTF-8 encoding distributes over concatenation.
proof fn lemma_encode_utf8_append(a: Seq<char>, b: Seq<char>)
    ensures
        encode_utf8(a + b) == encode_utf8(a) + encode_utf8(b),
    decreases a.len(),
{
    if a.len() > 0 {
        lemma_encode_utf8_append(a.drop_first(), b);
        assert((a + b).drop_first() == a.drop_first() + b);
        assert((a + b)[0] == a[0]);
    } else {
        assert(a + b == b);
    }
}

/// The UTF-8 length of `s` grows by the width of each pushed character.
proof fn lemma_encode_utf8_push(s: Seq<char>, c: char)
    ensures
        encode_utf8(s.push(c)).len() == encode_utf8(s).len() + encode_scalar(c as u32).len(),
{
    lemma_encode_utf8_append(s, seq![c]);
    assert(s.push(c) == s + seq![c]);
    assert(seq![c].drop_first() == Seq::<char>::empty());
    assert(encode_utf8(Seq::<char>::empty()) == Seq::<u8>::empty());
    assert(encode_utf8(seq![c]) == encode_scalar(seq![c][0] as u32) + encode_utf8(seq![c].drop_first()));
    assert(encode_utf8(seq![c]) == encode_scalar(c as u32) + Seq::<u8>::empty());
}

/// The length in bytes of the UTF-8 encoding of `s` (what `str::len` gives).
pub fn utf8_len(s: &str) -> (n: u128)
    ensures
        n == encode_utf8(s@).len(),
{
    let v = chars_of(s);
    let mut n: u128 = 0;
    let mut i: usize = 0;
    assert(v@.take(0) == Seq::<char>::empty());
    while i < v.len()
        invariant
            v@ == s@,
            i <= v@.len(),
            n == encode_utf8(v@.take(i as int)).len(),
            n <= 4 * i,
        decreases v.len() - i,
    {
        let c = v[i];
        let w = utf8_width(c);
        proof {
            lemma_encode_utf8_push(v@.take(i as int), c);
            assert(v@.take(i + 1) == v@.take(i as int).push(c));
            vstd::utf8::char_is_scalar(c);
        }
        n = n + w as u128;
        i = i + 1;
    }
    assert(v@.take(v@.len() as int) == v@);
    n
}

pub fn is_hex_exec(c: char) -> (b: bool)
    ensures
        b == is_hex(c),
{
    (c >= '0' && c <= '9') || (c >= 'a' && c <= 'f') || (c >= 'A' && c <= 'F')
}

fn hex_val_exec(c: char) -> (v: u8)
    requires
        is_hex(c),
    ensures
        v == hex_val(c),
        v < 16,
{
    if c >= '0' && c <= '9' {
        (c as u32 - '0' as u32) as u8
    } else if c >= 'a' && c <= 'f' {
        (c as u32 - 'a' as u32 + 10) as u8
    } else {
        (c as u32 - 'A' as u32 + 10) as u8
    }
}

/// The minimal failing index is what `first_failing` names.
pub proof fn lemma_first_failing(s: Seq<char>, p: spec_fn(char) -> bool, i: int)
    requires
        0 <= i < s.len(),
        !p(s[i]),
        forall|j: int| 0 <= j < i ==> p(#[trigger] s[j]),
    ensures
        first_failing(s, p) == Some(i),
{
    let k = choose|k: int|
        0 <= k < s.len() && !p(s[k]) && forall|j: int| 0 <= j < k ==> p(#[trigger] s[j]);
    assert(0 <= k < s.len() && !p(s[k]) && forall|j: int| 0 <= j < k ==> p(#[trigger] s[j]));
    if k < i {
        assert(p(s[k]));
    } else if i < k {
        assert(p(s[i]));
    }
}

/// Strict hex decoding: skips whitespace, errors on non-hex or odd-length
/// strings, and on bytes that are not UTF-8.
pub fn hex_decode(hex: &str) -> (r: Result<String, String>)
    ensures
        result_view(r) == spec_hex_decode(hex@),
{
    let v = chars_of(hex);
    let mut clean = String::new();
    let mut cv: Vec<char> = Vec::new();
    let mut i: usize = 0;
    let mut n: u128 = 0;
    while i < v.len()
        invariant
            i <= v@.len(),
            v@ == hex@,
            clean@ == cv@,
            cv@ == remove_ws(v@.take(i as int)),
            n == encode_utf8(cv@).len(),
            n <= 4 * cv@.len(),
            cv@.len() <= i,
        decreases v.len() - i,
    {
        let c = v[i];
        proof {
            assert(v@.take(i + 1).drop_last() == v@.take(i as int));
            assert(v@.take(i + 1).last() == c);
        }
        if !is_whitespace(c) {
            let w = utf8_width(c);
            proof {
                lemma_encode_utf8_push(cv@, c);
            }
            push_char(&mut clean, c);
            cv.push(c);
            n = n + w as u128;
        }
        i = i + 1;
    }
    proof {
        assert(v@.take(v@.len() as int) == v@);
    }
    if n % 2 != 0 {
        let mut m = copy_str("odd-length hex string: ");
        push_decimal_u128(&mut m, n);
        return Err(m);
    }
    let mut k: usize = 0;
    while k < cv.len()
        invariant
            k <= cv@.len(),
            cv@ == remove_ws(hex@),
            n == encode_utf8(cv@).len(),
            n % 2 == 0,
            forall|j: int| 0 <= j < k ==> is_hex(#[trigger] cv@[j]),
        decreases cv.len() - k,
    {
        if !is_hex_exec(cv[k]) {
            proof {
                lemma_first_failing(cv@, |ch: char| is_hex(ch), k as int);
            }
            let mut m = copy_str("invalid hex character: '");
            push_char(&mut m, cv[k]);
            push_str(&mut m, "'");
            proof {
                assert(m@ == "invalid hex character: '"@ + seq![cv@[k as int]] + "'"@);
            }
            return Err(m);
        }
        k = k + 1;
    }
    proof {
        assert(!exists|i: int| 0 <= i < cv@.len() && !is_hex(#[trigger] cv@[i]));
        assert(is_ascii_chars(cv@));
        is_ascii_chars_encode_utf8(cv@);
    }
    let mut bytes: Vec<u8> = Vec::new();
    let mut j: usize = 0;
    while j + 1 < cv.len()
        invariant
            cv@ == remove_ws(hex@),
            n == encode_utf8(cv@).len(),
            cv@.len() % 2 == 0,
            j % 2 == 0,
            j <= cv@.len(),
            forall|i: int| 0 <= i < cv@.len() ==> is_hex(#[trigger] cv@[i]),
            bytes@ == pairs_to_bytes(cv@.take(j as int)),
        decreases cv.len() - j,
    {
        let hi = hex_val_exec(cv[j]);
        let lo = hex_val_exec(cv[j + 1]);
        proof {
            let t = cv@.take(j + 2);
            assert(t.take(t.len() - 2) == cv@.take(j as int));
            assert(t[t.len() - 2] == cv@[j as int]);
            assert(t[t.len() - 1] == cv@[j + 1]);
        }
        bytes.push(hi * 16 + lo);
        j = j + 2;
    }
    proof {
        assert(j == cv@.len());
        assert(cv@.take(cv@.len() as int) == cv@);
    }
    match string_from_utf8(bytes) {
        Ok(s) => Ok(s),
        Err(e) => {
            let mut m = copy_str("utf8 decode: ");
            push_str(&mut m, e.as_str());
            Err(m)
        },
    }
}

// ---------------------------------------------------------------------------
// Laws
// ---------------------------------------------------------------------------

proof fn lemma_hex_digit(d: nat)
    requires
        d < 16,
    ensures
        is_hex(hex_digit_char(d)),
        hex_val(hex_digit_char(d)) == d,
        !is_ws(hex_digit_char(d)),
{
}

/// The hex encoding holds only hex digits, two per byte.
proof fn lemma_hex_of_bytes_shape(b: Seq<u8>)
    ensures
        hex_of_bytes(b).len() == 2 * b.len(),
        forall|i: int| 0 <= i < hex_of_bytes(b).len() ==> is_hex(#[trigger] hex_of_bytes(b)[i])
            && !is_ws(hex_of_bytes(b)[i]),
    decreases b.len(),
{
    if b.len() > 0 {
        lemma_hex_of_bytes_shape(b.drop_last());
        lemma_hex_digit((b.last() / 16) as nat);
        lemma_hex_digit((b.last() % 16) as nat);
        let h = hex_of_bytes(b);
        let p = hex_of_bytes(b.drop_last());
        assert forall|i: int| 0 <= i < h.len() implies is_hex(#[trigger] h[i]) && !is_ws(h[i]) by {
            if i < p.len() {
                assert(h[i] == p[i]);
            }
        }
    }
}

/// Hex digit pairs give back the bytes that were encoded.
pub proof fn lemma_pairs_of_hex(b: Seq<u8>)
    ensures
        pairs_to_bytes(hex_of_bytes(b)) == b,
    decreases b.len(),
{
    if b.len() > 0 {
        lemma_pairs_of_hex(b.drop_last());
        lemma_hex_of_bytes_shape(b.drop_last());
        let h = hex_of_bytes(b);
        let hi = (b.last() / 16) as nat;
        let lo = (b.last() % 16) as nat;
        lemma_hex_digit(hi);
        lemma_hex_digit(lo);
        assert(h.take(h.len() - 2) == hex_of_bytes(b.drop_last()));
        assert(h[h.len() - 2] == hex_digit_char(hi));
        assert(h[h.len() - 1] == hex_digit_char(lo));
        assert((hi * 16 + lo) as u8 == b.last());
        assert(b.drop_last().push(b.last()) == b);
    }
}

/// A string without whitespace is unchanged by removing whitespace.
proof fn lemma_remove_ws_id(s: Seq<char>)
    requires
        forall|i: int| 0 <= i < s.len() ==> !is_ws(#[trigger] s[i]),
    ensures
        remove_ws(s) == s,
    decreases s.len(),
{
    if s.len() > 0 {
        assert forall|i: int| 0 <= i < s.drop_last().len() implies !is_ws(#[trigger] s.drop_last()[i]) by {
            assert(s.drop_last()[i] == s[i]);
        }
        lemma_remove_ws_id(s.drop_last());
        assert(s.drop_last().push(s.last()) == s);
    }
}

/// Removing whitespace twice is removing it once.
proof fn lemma_remove_ws_idem(s: Seq<char>)
    ensures
        remove_ws(remove_ws(s)) == remove_ws(s),
{
    lemma_remove_ws_no_ws(s);
    lemma_remove_ws_id(remove_ws(s));
}

proof fn lemma_remove_ws_no_ws(s: Seq<char>)
    ensures
        forall|i: int| 0 <= i < remove_ws(s).len() ==> !is_ws(#[trigger] remove_ws(s)[i]),
    decreases s.len(),
{
    if s.len() > 0 {
        lemma_remove_ws_no_ws(s.drop_last());
        let r = remove_ws(s);
        let p = remove_ws(s.drop_last());
        if !is_ws(s.last()) {
            assert forall|i: int| 0 <= i < r.len() implies !is_ws(#[trigger] r[i]) by {
                if i < p.len() {
                    assert(r[i] == p[i]);
                }
            }
        }
    }
}

/// Decoding the hex encoding of a text's UTF-8 bytes gives the text back:
/// any content survives the trip through the hex transport unchanged.
pub proof fn law_hex_roundtrip(s: Seq<char>)
    ensures
        spec_hex_decode(hex_of_bytes(encode_utf8(s))) == Ok::<Seq<char>, Seq<char>>(s),
{
    let b = encode_utf8(s);
    let h = hex_of_bytes(b);
    lemma_hex_of_bytes_shape(b);
    lemma_remove_ws_id(h);
    assert(is_ascii_chars(h)) by {
        assert forall|i: int| 0 <= i < h.len() implies '\0' <= #[trigger] h[i] <= '\u{7f}' by {
            assert(is_hex(h[i]));
        }
    }
    is_ascii_chars_encode_utf8(h);
    assert(encode_utf8(h).len() % 2 == 0);
    assert(!exists|i: int| 0 <= i < h.len() && !is_hex(#[trigger] h[i]));
    assert(first_failing(h, |ch: char| is_hex(ch)) is None);
    lemma_pairs_of_hex(b);
    vstd::utf8::encode_utf8_valid_utf8(s);
    vstd::utf8::encode_utf8_decode_utf8(s);
}

/// The upper-case form of a hex digit (`a`..`f` become `A`..`F`).
pub open spec fn upper_hex_char(c: char) -> char {
    if 'a' <= c && c <= 'f' {
        ((c as u32) - 32) as char
    } else {
        c
    }
}

/// A hex text with its letters upper-cased.
pub open spec fn to_upper_hex(h: Seq<char>) -> Seq<char> {
    h.map_values(|c: char| upper_hex_char(c))
}

/// Texts of the same length whose digits have the same values denote the
/// same bytes.
proof fn lemma_pairs_same_values(a: Seq<char>, b: Seq<char>)
    requires
        a.len() == b.len(),
        forall|i: int| 0 <= i < a.len() ==> hex_val(#[trigger] a[i]) == hex_val(b[i]),
    ensures
        pairs_to_bytes(a) == pairs_to_bytes(b),
    decreases a.len(),
{
    if a.len() >= 2 {
        let (ta, tb) = (a.take(a.len() - 2), b.take(b.len() - 2));
        assert forall|i: int| 0 <= i < ta.len() implies hex_val(#[trigger] ta[i]) == hex_val(tb[i]) by {
            assert(ta[i] == a[i] && tb[i] == b[i]);
        }
        lemma_pairs_same_values(ta, tb);
        assert(hex_val(a[a.len() - 2]) == hex_val(b[b.len() - 2]));
        assert(hex_val(a[a.len() - 1]) == hex_val(b[b.len() - 1]));
    }
}

/// The hex transport is case-insensitive: decoding the upper-cased hex
/// encoding of a text's UTF-8 bytes also gives the text back.
pub proof fn law_hex_roundtrip_upper(s: Seq<char>)
    ensures
        spec_hex_decode(to_upper_hex(hex_of_bytes(encode_utf8(s)))) == Ok::<Seq<char>, Seq<char>>(s),
{
    let b = encode_utf8(s);
    let h = hex_of_bytes(b);
    let u = to_upper_hex(h);
    lemma_hex_of_bytes_shape(b);
    assert forall|i: int| 0 <= i < u.len() implies is_hex(#[trigger] u[i]) && !is_ws(u[i]) && hex_val(u[i])
        == hex_val(h[i]) && '\0' <= u[i] <= '\u{7f}' by {
        assert(u[i] == upper_hex_char(h[i]));
        assert(is_hex(h[i]));
    }
    lemma_remove_ws_id(u);
    assert(is_ascii_chars(u));
    is_ascii_chars_encode_utf8(u);
    assert(encode_utf8(u).len() % 2 == 0);
    assert(!exists|i: int| 0 <= i < u.len() && !is_hex(#[trigger] u[i]));
    assert(first_failing(u, |ch: char| is_hex(ch)) is None);
    lemma_pairs_same_values(u, h);
    lemma_pairs_of_hex(b);
    vstd::utf8::encode_utf8_valid_utf8(s);
    vstd::utf8::encode_utf8_decode_utf8(s);
}

/// Whitespace anywhere in the hex text does not change what it decodes to.
pub proof fn law_hex_decode_ignores_whitespace(s: Seq<char>)
    ensures
        spec_hex_decode(s) == spec_hex_decode(remove_ws(s)),
{
    lemma_remove_ws_idem(s);
}

/// The hex encoding of `n` bytes is `2n` lowercase hex digits.
pub proof fn law_hex_encode_shape(b: Seq<u8>)
    ensures
        hex_of_bytes(b).len() == 2 * b.len(),
        forall|i: int|
            0 <= i < hex_of_bytes(b).len() ==> {
                let c = #[trigger] hex_of_bytes(b)[i];
                ('0' <= c <= '9') || ('a' <= c <= 'f')
            },
{
    lemma_hex_of_bytes_shape(b);
    assert forall|i: int| 0 <= i < hex_of_bytes(b).len() implies {
        let c = #[trigger] hex_of_bytes(b)[i];
        ('0' <= c <= '9') || ('a' <= c <= 'f')
    } by {
        lemma_lowercase(b, i);
    }
}

proof fn lemma_lowercase(b: Seq<u8>, i: int)
    requires
        0 <= i < hex_of_bytes(b).len(),
    ensures
        ({
            let c = hex_of_bytes(b)[i];
            ('0' <= c <= '9') || ('a' <= c <= 'f')
        }),
    decreases b.len(),
{
    lemma_hex_of_bytes_shape(b);
    if b.len() > 0 {
        let p = hex_of_bytes(b.drop_last());
        lemma_hex_of_bytes_shape(b.drop_last());
        if i < p.len() {
            lemma_lowercase(b.drop_last(), i);
            assert(hex_of_bytes(b)[i] == p[i]);
        }
    }
}

} // verus!
