//! Decimal and hexadecimal numerals: formatting (`{}` and `{:x}`) and
//! parsing as `str::parse::<u64>` / `str::parse::<usize>` do.
use vstd::prelude::*;
use crate::text::push_char;

verus! {

/// The decimal digit character for `d < 10`.
pub open spec fn digit_char(d: nat) -> char {
    if d == 0 {
        '0'
    } else if d == 1 {
        '1'
    } else if d == 2 {
        '2'
    } else if d == 3 {
        '3'
    } else if d == 4 {
        '4'
    } else if d == 5 {
        '5'
    } else if d == 6 {
        '6'
    } else if d == 7 {
        '7'
    } else if d == 8 {
        '8'
    } else {
        '9'
    }
}

/// The lowercase hexadecimal digit character for `d < 16`.
pub open spec fn hex_digit_char(d: nat) -> char {
    if d < 10 {
        digit_char(d)
    } else if d == 10 {
        'a'
    } else if d == 11 {
        'b'
    } else if d == 12 {
        'c'
    } else if d == 13 {
        'd'
    } else if d == 14 {
        'e'
    } else {
        'f'
    }
}

/// `format!("{}", n)`.
pub open spec fn decimal(n: nat) -> Seq<char>
    decreases n,
{
    if n < 10 {
        seq![digit_char(n)]
    } else {
        decimal(n / 10).push(digit_char(n % 10))
    }
}

/// A decimal numeral is not empty and starts with a digit.
pub proof fn lemma_decimal_starts_with_digit(n: nat)
    ensures
        decimal(n).len() >= 1,
        is_digit(decimal(n)[0]),
    decreases n,
{
    if n >= 10 {
        lemma_decimal_starts_with_digit(n / 10);
        assert(decimal(n)[0] == decimal(n / 10)[0]);
    }
}

/// `format!("{:x}", n)`.
pub open spec fn lower_hex(n: nat) -> Seq<char>
    decreases n,
{
    if n < 16 {
        seq![hex_digit_char(n)]
    } else {
        lower_hex(n / 16).push(hex_digit_char(n % 16))
    }
}

/// The character of a decimal digit.
pub fn digit_char_exec(d: u64) -> (c: char)
    requires
        d < 10,
    ensures
        c == digit_char(d as nat),
{
    if d == 0 {
        '0'
    } else if d == 1 {
        '1'
    } else if d == 2 {
        '2'
    } else if d == 3 {
        '3'
    } else if d == 4 {
        '4'
    } else if d == 5 {
        '5'
    } else if d == 6 {
        '6'
    } else if d == 7 {
        '7'
    } else if d == 8 {
        '8'
    } else {
        '9'
    }
}

/// The character of a lowercase hexadecimal digit.
pub fn hex_digit_char_exec(d: u64) -> (c: char)
    requires
        d < 16,
    ensures
        c == hex_digit_char(d as nat),
{
    if d < 10 {
        digit_char_exec(d)
    } else if d == 10 {
        'a'
    } else if d == 11 {
        'b'
    } else if d == 12 {
        'c'
    } else if d == 13 {
        'd'
    } else if d == 14 {
        'e'
    } else {
        'f'
    }
}

/// Appends the decimal numeral of `n`.
pub fn push_decimal(out: &mut String, n: u64)
    ensures
        final(out)@ == old(out)@ + decimal(n as nat),
    decreases n,
{
    if n < 10 {
        push_char(out, digit_char_exec(n));
        assert(old(out)@ + decimal(n as nat) == old(out)@.push(digit_char(n as nat)));
    } else {
        push_decimal(out, n / 10);
        let ghost mid = out@;
        push_char(out, digit_char_exec(n % 10));
        assert(old(out)@ + decimal(n as nat) == (old(out)@ + decimal((n / 10) as nat)).push(
            digit_char((n % 10) as nat),
        ));
    }
}

/// Appends the decimal numeral of a 128-bit `n`.
pub fn push_decimal_u128(out: &mut String, n: u128)
    ensures
        final(out)@ == old(out)@ + decimal(n as nat),
    decreases n,
{
    if n < 10 {
        push_char(out, digit_char_exec(n as u64));
        assert(old(out)@ + decimal(n as nat) == old(out)@.push(digit_char(n as nat)));
    } else {
        push_decimal_u128(out, n / 10);
        push_char(out, digit_char_exec((n % 10) as u64));
        assert(old(out)@ + decimal(n as nat) == (old(out)@ + decimal((n / 10) as nat)).push(
            digit_char((n % 10) as nat),
        ));
    }
}

/// Appends the lowercase hexadecimal numeral of `n`.
pub fn push_lower_hex(out: &mut String, n: u64)
    ensures
        final(out)@ == old(out)@ + lower_hex(n as nat),
    decreases n,
{
    if n < 16 {
        push_char(out, hex_digit_char_exec(n));
        assert(old(out)@ + lower_hex(n as nat) == old(out)@.push(hex_digit_char(n as nat)));
    } else {
        push_lower_hex(out, n / 16);
        push_char(out, hex_digit_char_exec(n % 16));
        assert(old(out)@ + lower_hex(n as nat) == (old(out)@ + lower_hex((n / 16) as nat)).push(
            hex_digit_char((n % 16) as nat),
        ));
    }
}

/// The decimal numeral of `n` (`n.to_string()`).
pub fn decimal_string(n: u64) -> (res: String)
    ensures
        res@ == decimal(n as nat),
{
    let mut res = String::new();
    push_decimal(&mut res, n);
    assert(Seq::<char>::empty() + decimal(n as nat) == decimal(n as nat));
    res
}

// ---------------------------------------------------------------------------
// Parsing
// ---------------------------------------------------------------------------

pub open spec fn is_digit(c: char) -> bool {
    '0' <= c && c <= '9'
}

pub open spec fn digit_value(c: char) -> nat {
    (c as u32 - '0' as u32) as nat
}

/// The number a string of decimal digits denotes.
pub open spec fn digits_value(s: Seq<char>) -> nat
    decreases s.len(),
{
    if s.len() == 0 {
        0
    } else {
        digits_value(s.drop_last()) * 10 + digit_value(s.last())
    }
}

pub open spec fn all_digits(s: Seq<char>) -> bool {
    forall|i: int| 0 <= i < s.len() ==> is_digit(#[trigger] s[i])
}

/// The digits part of an unsigned numeral: without a leading `'+'`.
pub open spec fn unsigned_digits(s: Seq<char>) -> Seq<char> {
    if s.len() > 0 && s[0] == '+' {
        s.drop_first()
    } else {
        s
    }
}

/// What an unsigned integer's `FromStr` reads, before the bound check: an
/// optional `'+'` then one or more ASCII digits.
pub open spec fn parse_unsigned(s: Seq<char>) -> Option<nat> {
    let d = unsigned_digits(s);
    if d.len() > 0 && all_digits(d) {
        Some(digits_value(d))
    } else {
        None
    }
}

/// `s.parse::<u64>().ok()`.
pub open spec fn parse_u64(s: Seq<char>) -> Option<u64> {
    match parse_unsigned(s) {
        Some(v) => if v <= u64::MAX {
            Some(v as u64)
        } else {
            None
        },
        None => None,
    }
}

/// `s.parse::<usize>().ok()`.
pub open spec fn parse_usize(s: Seq<char>) -> Option<usize> {
    match parse_unsigned(s) {
        Some(v) => if v <= usize::MAX {
            Some(v as usize)
        } else {
            None
        },
        None => None,
    }
}

/// A longer run of digits denotes at least as much.
proof fn lemma_digits_value_mono(s: Seq<char>, k: int)
    requires
        0 <= k <= s.len(),
    ensures
        digits_value(s.take(k)) <= digits_value(s),
    decreases s.len() - k,
{
    if k < s.len() {
        lemma_digits_value_mono(s, k + 1);
        assert(s.take(k + 1).drop_last() == s.take(k));
    } else {
        assert(s.take(k) == s);
    }
}

/// Reads an unsigned decimal the way `u64::from_str` does.
pub fn parse_u64_chars(s: &Vec<char>) -> (r: Option<u64>)
    ensures
        r == parse_u64(s@),
{
    let mut i: usize = 0;
    if s.len() > 0 && s[0] == '+' {
        i = 1;
    }
    let ghost d = unsigned_digits(s@);
    proof {
        assert(d == s@.skip(i as int));
    }
    if i == s.len() {
        return None;
    }
    let start = i;
    let mut acc: u64 = 0;
    while i < s.len()
        invariant
            start <= i <= s@.len(),
            start < s@.len(),
            d == s@.skip(start as int),
            d == unsigned_digits(s@),
            all_digits(s@.subrange(start as int, i as int)),
            acc as nat == digits_value(s@.subrange(start as int, i as int)),
        decreases s.len() - i,
    {
        let c = s[i];
        if !(c >= '0' && c <= '9') {
            proof {
                assert(d[i - start] == c);
                assert(!is_digit(d[i - start]));
                assert(!all_digits(d));
                assert(parse_unsigned(s@) is None);
            }
            return None;
        }
        let dv = (c as u32 - '0' as u32) as u64;
        proof {
            assert(s@.subrange(start as int, i + 1).drop_last() == s@.subrange(start as int, i as int));
            assert(s@.subrange(start as int, i + 1).last() == c);
        }
        if acc > (u64::MAX - dv) / 10 {
            proof {
                assert(acc * 10 + dv > u64::MAX) by (nonlinear_arith)
                    requires
                        acc > (u64::MAX - dv) / 10,
                        dv <= 9,
                ;
                let t = s@.subrange(start as int, i + 1);
                assert(digit_value(c) == dv);
                assert(digits_value(t) == acc * 10 + dv);
                if all_digits(d) {
                    assert(t == d.take(i + 1 - start));
                    lemma_digits_value_mono(d, i + 1 - start);
                    assert(parse_unsigned(s@) == Some(digits_value(d)));
                }
            }
            return None;
        }
        acc = acc * 10 + dv;
        i = i + 1;
    }
    proof {
        assert(s@.subrange(start as int, s@.len() as int) == d);
    }
    Some(acc)
}

/// Reads an unsigned decimal the way `usize::from_str` does.
pub fn parse_usize_chars(s: &Vec<char>) -> (r: Option<usize>)
    ensures
        r == parse_usize(s@),
{
    match parse_u64_chars(s) {
        Some(v) => {
            if v as u128 <= usize::MAX as u128 {
                Some(v as usize)
            } else {
                None
            }
        },
        None => {
            proof {
                if parse_unsigned(s@) is Some {
                    assert(parse_unsigned(s@)->0 > u64::MAX);
                    assert(usize::MAX <= u64::MAX);
                }
            }
            None
        },
    }
}

} // verus!
