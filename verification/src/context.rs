//! Context fingerprints: a SHA-256 hash over the three lines before and the
//! three lines after an edit target, so that an edit computed against one
//! state of a file is refused once the lines around it have changed.
use vstd::prelude::*;
use vstd::utf8::encode_utf8;
use sha2::Digest;
use crate::hex::{hex_encode, hex_of_bytes};
use crate::lines::strs;
use crate::num::{decimal, push_decimal};
use crate::text::{chars_of, copy_str, push_str, string_of_range};

verus! {

/// The SHA-256 digest of `data`, as computed by the `sha2` crate.
pub uninterp spec fn sha256_of(data: Seq<u8>) -> Seq<u8>;

/// Calls `sha2::Sha256::digest` on the bytes; the contract names the digest
/// `sha256_of(data)` and states that it is 32 bytes long (the output size of
/// SHA-256 in the crate's type).
#[verifier::external_body]
fn sha256(data: &[u8]) -> (r: Vec<u8>)
    ensures
        r@ == sha256_of(data@),
        r@.len() == 32,
{
    sha2::Sha256::digest(data).to_vec()
}

/// `min(a, b)`.
pub open spec fn min_of(a: int, b: int) -> int {
    if a <= b {
        a
    } else {
        b
    }
}

/// The lines `ls[lo..hi]`, or none when the range is empty.
pub open spec fn window(ls: Seq<Seq<char>>, lo: int, hi: int) -> Seq<Seq<char>> {
    if lo < hi {
        ls.subrange(lo, hi)
    } else {
        seq![]
    }
}

/// The context of the range `start..=end` (1-based): up to three lines before
/// `start` and up to three lines after `end`.
pub open spec fn context_lines(ls: Seq<Seq<char>>, start: int, end: int) -> Seq<Seq<char>> {
    let s = if start >= 1 {
        start - 1
    } else {
        0
    };
    let before_start = if s >= 3 {
        s - 3
    } else {
        0
    };
    let before_end = min_of(s, ls.len() as int);
    let after_end = min_of(end + 3, ls.len() as int);
    window(ls, before_start, before_end) + window(ls, end, after_end)
}

/// The UTF-8 bytes of the lines, one after another.
pub open spec fn utf8_concat(ls: Seq<Seq<char>>) -> Seq<u8>
    decreases ls.len(),
{
    if ls.len() == 0 {
        seq![]
    } else {
        utf8_concat(ls.drop_last()) + encode_utf8(ls.last())
    }
}

/// The full context hash: lowercase hex of the SHA-256 of the context lines.
pub open spec fn context_hash(ls: Seq<Seq<char>>, start: int, end: int) -> Seq<char> {
    hex_of_bytes(sha256_of(utf8_concat(context_lines(ls, start, end))))
}

/// The message of a failed context check.
pub open spec fn mismatch_message(start: nat) -> Seq<char> {
    "context mismatch: content around line "@ + decimal(start)
        + " changed. Re-read the file and retry."@
}

proof fn lemma_hex_len(b: Seq<u8>)
    ensures
        hex_of_bytes(b).len() == 2 * b.len(),
    decreases b.len(),
{
    if b.len() > 0 {
        lemma_hex_len(b.drop_last());
    }
}

/// Appends the lines `lines[lo..hi]` as UTF-8 bytes.
fn push_lines_bytes(out: &mut Vec<u8>, lines: &[String], lo: usize, hi: usize)
    requires
        lo <= hi <= lines@.len(),
    ensures
        final(out)@ == old(out)@ + utf8_concat(strs(lines@).subrange(lo as int, hi as int)),
{
    let ghost ls = strs(lines@);
    let ghost start = out@;
    let mut i = lo;
    assert(ls.subrange(lo as int, lo as int) == Seq::<Seq<char>>::empty());
    while i < hi
        invariant
            lo <= i <= hi <= lines@.len(),
            ls == strs(lines@),
            out@ == start + utf8_concat(ls.subrange(lo as int, i as int)),
        decreases hi - i,
    {
        let bytes = lines[i].as_str().as_bytes();
        let ghost mid = out@;
        let mut j: usize = 0;
        while j < bytes.len()
            invariant
                j <= bytes@.len(),
                out@ == mid + bytes@.take(j as int),
            decreases bytes.len() - j,
        {
            out.push(bytes[j]);
            j = j + 1;
            assert(out@ =~= mid + bytes@.take(j as int));
        }
        proof {
            assert(bytes@.take(bytes@.len() as int) == bytes@);
            assert(ls.subrange(lo as int, i + 1).drop_last() == ls.subrange(lo as int, i as int));
            assert(ls.subrange(lo as int, i + 1).last() == lines@[i as int]@);
            assert(out@ =~= start + utf8_concat(ls.subrange(lo as int, i + 1)));
        }
        i = i + 1;
    }
}

proof fn lemma_utf8_concat_append(a: Seq<Seq<char>>, b: Seq<Seq<char>>)
    ensures
        utf8_concat(a + b) == utf8_concat(a) + utf8_concat(b),
    decreases b.len(),
{
    if b.len() == 0 {
        assert(a + b == a);
    } else {
        lemma_utf8_concat_append(a, b.drop_last());
        assert((a + b).drop_last() == a + b.drop_last());
        assert((a + b).last() == b.last());
    }
}

/// Computes the context hash: SHA-256 over the three lines before `start`
/// and the three lines after `end` (1-based), as a 64-character lowercase
/// hex string.
pub fn compute_context_hash(lines: &[String], start: usize, end: usize) -> (r: String)
    requires
        end + 3 <= usize::MAX,
    ensures
        r@ == context_hash(strs(lines@), start as int, end as int),
        r@.len() == 64,
{
    let ghost ls = strs(lines@);
    let n = lines.len();
    let s = if start >= 1 {
        start - 1
    } else {
        0
    };
    let before_start = if s >= 3 {
        s - 3
    } else {
        0
    };
    let before_end = if s <= n {
        s
    } else {
        n
    };
    let after_end = if end + 3 <= n {
        end + 3
    } else {
        n
    };
    let mut bytes: Vec<u8> = Vec::new();
    if before_start < before_end {
        push_lines_bytes(&mut bytes, lines, before_start, before_end);
    }
    let ghost first = bytes@;
    if end < after_end {
        push_lines_bytes(&mut bytes, lines, end, after_end);
    }
    proof {
        lemma_utf8_concat_append(
            window(ls, before_start as int, before_end as int),
            window(ls, end as int, after_end as int),
        );
        assert(utf8_concat(Seq::<Seq<char>>::empty()) == Seq::<u8>::empty());
        assert(bytes@ =~= utf8_concat(context_lines(ls, start as int, end as int)));
    }
    let digest = sha256(bytes.as_slice());
    let r = hex_encode(digest.as_slice());
    proof {
        lemma_hex_len(digest@);
    }
    r
}

/// Verifies pre-edit context: the first 16 characters of the context hash
/// must equal `expected_hash`; otherwise the edit is refused with a message
/// naming `start`.
pub fn verify_context(lines: &[String], start: usize, end: usize, expected_hash: &str) -> (r:
    Result<(), String>)
    requires
        end + 3 <= usize::MAX,
    ensures
        r is Ok <==> context_hash(strs(lines@), start as int, end as int).take(16) == expected_hash@,
        r matches Err(m) ==> m@ == mismatch_message(start as nat),
{
    let actual = compute_context_hash(lines, start, end);
    let a = chars_of(actual.as_str());
    let e = chars_of(expected_hash);
    let mut same = e.len() == 16;
    let mut i: usize = 0;
    while same && i < 16
        invariant
            a@.len() == 64,
            same ==> e@.len() == 16,
            i <= 16,
            same ==> forall|j: int| 0 <= j < i ==> a@[j] == e@[j],
            !same ==> a@.take(16) != e@,
        decreases 16 - i,
    {
        if a[i] != e[i] {
            assert(a@.take(16)[i as int] != e@[i as int]);
            same = false;
        }
        i = i + 1;
    }
    if same {
        assert(a@.take(16) =~= e@);
        Ok(())
    } else {
        let mut m = copy_str("context mismatch: content around line ");
        push_decimal(&mut m, start as u64);
        push_str(&mut m, " changed. Re-read the file and retry.");
        Err(m)
    }
}

// ---------------------------------------------------------------------------
// Laws
// ---------------------------------------------------------------------------

/// The context hash of a range depends only on the lines around it: two
/// files that agree on the three lines before `start` and the three lines
/// after `end` (and have the same length) give the same hash, whatever the
/// lines of the range itself, and every line further away, hold.
pub proof fn law_context_hash_ignores_range(
    ls1: Seq<Seq<char>>,
    ls2: Seq<Seq<char>>,
    start: int,
    end: int,
)
    requires
        0 <= start,
        0 <= end,
        ls1.len() == ls2.len(),
        forall|i: int|
            0 <= i < ls1.len() && (start - 4 <= i < start - 1 || end <= i < end + 3) ==> #[trigger] ls1[i]
                == ls2[i],
    ensures
        context_hash(ls1, start, end) == context_hash(ls2, start, end),
{
    let s = if start >= 1 {
        start - 1
    } else {
        0
    };
    let bs = if s >= 3 {
        s - 3
    } else {
        0
    };
    let be = min_of(s, ls1.len() as int);
    let ae = min_of(end + 3, ls1.len() as int);
    assert(window(ls1, bs, be) =~= window(ls2, bs, be)) by {
        if bs < be {
            assert forall|k: int| 0 <= k < be - bs implies ls1.subrange(bs, be)[k] == ls2.subrange(bs, be)[k] by {
                assert(ls1[bs + k] == ls2[bs + k]);
            }
        }
    }
    assert(window(ls1, end, ae) =~= window(ls2, end, ae)) by {
        if end < ae {
            assert forall|k: int| 0 <= k < ae - end implies ls1.subrange(end, ae)[k] == ls2.subrange(end, ae)[k] by {
                assert(ls1[end + k] == ls2[end + k]);
            }
        }
    }
}

} // verus!
