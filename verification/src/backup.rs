//! Backups: their names, which of them a retention policy purges, which is
//! the latest, and how many are recent. Reading the backup directory and the
//! clock is left to the caller, who passes each backup's name and
//! modification time (nanoseconds since the Unix epoch).
use vstd::prelude::*;
use crate::num::{decimal, digit_char, lower_hex, push_decimal_u128, push_lower_hex};
use crate::text::{chars_of, copy_str, occurs_at, occurs_at_exec, push_str, starts_with};

verus! {

// ---------------------------------------------------------------------------
// Names
// ---------------------------------------------------------------------------

/// The value `std`'s `DefaultHasher` (created by `new`, which is not
/// randomly seeded) gives for a path after `Path::hash` and `finish`.
pub uninterp spec fn path_hash_of(p: Seq<char>) -> u64;

/// Hashes the path with `std`'s `DefaultHasher` (`Path::hash`, then
/// `finish`); the contract names the value `path_hash_of(path)`.
#[verifier::external_body]
fn path_hash_value(path: &str) -> (r: u64)
    ensures
        r == path_hash_of(path@),
{
    let mut hasher = std::collections::hash_map::DefaultHasher::new();
    std::hash::Hash::hash(std::path::Path::new(path), &mut hasher);
    std::hash::Hasher::finish(&hasher)
}

/// The lowercase hex numeral of a hash value.
pub fn hash_text(h: u64) -> (r: String)
    ensures
        r@ == lower_hex(h as nat),
{
    let mut r = String::new();
    push_lower_hex(&mut r, h);
    assert(r@ =~= lower_hex(h as nat));
    r
}

/// Returns a hex-encoded hash of a file path, used to name its backups and
/// its lock.
pub fn get_path_hash(path: &str) -> (r: String)
    ensures
        r@ == lower_hex(path_hash_of(path@) as nat),
{
    let h = path_hash_value(path);
    hash_text(h)
}

/// The file name of a path as `std::path::Path::file_name` gives it.
pub uninterp spec fn file_name_of(p: Seq<char>) -> Option<Seq<char>>;

/// Calls `Path::file_name`; the contract names the result `file_name_of(p)`.
#[verifier::external_body]
fn path_file_name(p: &str) -> (r: Option<String>)
    ensures
        match r {
            Some(s) => file_name_of(p@) == Some(s@),
            None => file_name_of(p@) is None,
        },
{
    std::path::Path::new(p).file_name().map(|n| n.to_string_lossy().into_owned())
}

/// The name of a backup: the path hash, the file's name (`unknown` without
/// one) and the timestamp, separated by dots.
pub open spec fn backup_name(hash: Seq<char>, file_name: Option<Seq<char>>, ts: nat) -> Seq<char> {
    hash + "."@ + match file_name {
        Some(n) => n,
        None => "unknown"@,
    } + "."@ + decimal(ts)
}

/// The name of the backup of `path` taken at `ts` nanoseconds.
pub fn backup_file_name(path: &str, hash: &str, ts: u128) -> (r: String)
    ensures
        r@ == backup_name(hash@, file_name_of(path@), ts as nat),
{
    let name = path_file_name(path);
    let mut r = copy_str(hash);
    push_str(&mut r, ".");
    match &name {
        Some(n) => push_str(&mut r, n.as_str()),
        None => push_str(&mut r, "unknown"),
    }
    push_str(&mut r, ".");
    push_decimal_u128(&mut r, ts);
    r
}

/// The name of the lock file for a path hash.
pub open spec fn lock_name(hash: Seq<char>) -> Seq<char> {
    "sniper."@ + hash + ".lock"@
}

/// The lock file's name: `sniper.{hash}.lock`.
pub fn lock_file_name(hash: &str) -> (r: String)
    ensures
        r@ == lock_name(hash@),
{
    let mut r = copy_str("sniper.");
    push_str(&mut r, hash);
    push_str(&mut r, ".lock");
    r
}

// ---------------------------------------------------------------------------
// Selecting backups
// ---------------------------------------------------------------------------

/// A file in the backup directory: its name and modification time in
/// nanoseconds since the Unix epoch.
#[derive(Debug)]
pub struct BackupEntry {
    pub name: String,
    pub modified_nanos: u128,
}

/// The view of the entries.
pub open spec fn entries_view(es: Seq<BackupEntry>) -> Seq<(Seq<char>, u128)> {
    es.map_values(|e: BackupEntry| (e.name@, e.modified_nanos))
}

/// The entries whose name starts with the path hash, in order.
pub open spec fn matching(es: Seq<(Seq<char>, u128)>, hash: Seq<char>) -> Seq<(Seq<char>, u128)>
    decreases es.len(),
{
    if es.len() == 0 {
        seq![]
    } else {
        let m = matching(es.drop_last(), hash);
        if starts_with(es.last().0, hash) {
            m.push(es.last())
        } else {
            m
        }
    }
}

/// How many entries of `ms` come before entry `i` when sorted from oldest
/// to newest (a stable sort: equal times keep their order), among the first
/// `k`.
pub open spec fn older_count(ms: Seq<(Seq<char>, u128)>, i: int, k: int) -> nat
    decreases k,
{
    if k <= 0 {
        0
    } else {
        older_count(ms, i, k - 1) + if ms[k - 1].1 < ms[i].1 || (ms[k - 1].1 == ms[i].1 && k - 1 < i) {
            1nat
        } else {
            0nat
        }
    }
}

/// The age of a backup: how long before `now` it was modified (zero for a
/// time after `now`).
pub open spec fn age(now: u128, modified: u128) -> nat {
    if now >= modified {
        (now - modified) as nat
    } else {
        0
    }
}

/// Backup `i` of the matching ones is purged: it is older than the maximum
/// age, or it is among the oldest beyond the number to keep.
pub open spec fn purged(ms: Seq<(Seq<char>, u128)>, i: int, now: u128, keep: nat, max_age_days: nat) -> bool {
    ||| (max_age_days > 0 && age(now, ms[i].1) > max_age_days * 86400 * 1_000_000_000)
    ||| (keep > 0 && ms.len() > keep && older_count(ms, i, ms.len() as int) < ms.len() - keep)
}

/// The names of the purged backups among the first `k` matching ones, in
/// order.
pub open spec fn purged_names(ms: Seq<(Seq<char>, u128)>, k: int, now: u128, keep: nat, max_age_days: nat) -> Seq<
    Seq<char>,
>
    decreases k,
{
    if k <= 0 {
        seq![]
    } else {
        purged_names(ms, k - 1, now, keep, max_age_days) + if purged(ms, k - 1, now, keep, max_age_days) {
            seq![ms[k - 1].0]
        } else {
            seq![]
        }
    }
}

/// Whether `name` starts with `hash`.
fn has_prefix(name: &str, hash: &str) -> (b: bool)
    ensures
        b == starts_with(name@, hash@),
{
    let n = chars_of(name);
    let h = chars_of(hash);
    occurs_at_exec(&n, &h, 0)
}

/// The matching entries, as (name, time) pairs.
fn matching_entries(entries: &Vec<BackupEntry>, hash: &str) -> (r: Vec<(String, u128)>)
    ensures
        r@.map_values(|p: (String, u128)| (p.0@, p.1)) == matching(entries_view(entries@), hash@),
{
    let ghost es = entries_view(entries@);
    let mut r: Vec<(String, u128)> = Vec::new();
    let mut i: usize = 0;
    assert(es.take(0) == Seq::<(Seq<char>, u128)>::empty());
    while i < entries.len()
        invariant
            i <= entries@.len(),
            es == entries_view(entries@),
            r@.map_values(|p: (String, u128)| (p.0@, p.1)) == matching(es.take(i as int), hash@),
        decreases entries.len() - i,
    {
        let e = &entries[i];
        proof {
            assert(es.take(i + 1).drop_last() == es.take(i as int));
            assert(es.take(i + 1).last() == (e.name@, e.modified_nanos));
        }
        if has_prefix(e.name.as_str(), hash) {
            let ghost before = r@;
            r.push((copy_str(e.name.as_str()), e.modified_nanos));
            proof {
                assert(r@.map_values(|p: (String, u128)| (p.0@, p.1)) =~= before.map_values(
                    |p: (String, u128)| (p.0@, p.1),
                ).push((e.name@, e.modified_nanos)));
            }
        }
        i = i + 1;
    }
    assert(es.take(entries@.len() as int) == es);
    r
}

/// Counts the backups older than backup `i` (stable order).
fn older_than(ms: &Vec<(String, u128)>, i: usize) -> (c: usize)
    requires
        i < ms@.len(),
    ensures
        c == older_count(ms@.map_values(|p: (String, u128)| (p.0@, p.1)), i as int, ms@.len() as int),
{
    let ghost v = ms@.map_values(|p: (String, u128)| (p.0@, p.1));
    let mut c: usize = 0;
    let mut k: usize = 0;
    while k < ms.len()
        invariant
            i < ms@.len(),
            k <= ms@.len(),
            v == ms@.map_values(|p: (String, u128)| (p.0@, p.1)),
            c == older_count(v, i as int, k as int),
            c <= k,
        decreases ms.len() - k,
    {
        if ms[k].1 < ms[i].1 || (ms[k].1 == ms[i].1 && k < i) {
            c = c + 1;
        }
        k = k + 1;
    }
    c
}

/// Selects the backups of a file that a retention policy purges: those
/// older than `max_age_days`, and the oldest ones beyond the `keep` most
/// recent (a limit of 0 disables either rule). Gives their names, in the
/// order of the entries.
pub fn select_purged_backups(
    entries: &Vec<BackupEntry>,
    hash: &str,
    now: u128,
    keep: usize,
    max_age_days: u64,
) -> (r: Vec<String>)
    requires
        max_age_days * 86400 <= u64::MAX,
    ensures
        strs_of(r@) == purged_names(
            matching(entries_view(entries@), hash@),
            matching(entries_view(entries@), hash@).len() as int,
            now,
            keep as nat,
            max_age_days as nat,
        ),
{
    let ms = matching_entries(entries, hash);
    let ghost mv = ms@.map_values(|p: (String, u128)| (p.0@, p.1));
    let max_age: u128 = (max_age_days as u128) * 86400 * 1_000_000_000;
    let mut r: Vec<String> = Vec::new();
    let mut i: usize = 0;
    while i < ms.len()
        invariant
            i <= ms@.len(),
            mv == ms@.map_values(|p: (String, u128)| (p.0@, p.1)),
            mv == matching(entries_view(entries@), hash@),
            max_age == max_age_days * 86400 * 1_000_000_000,
            strs_of(r@) == purged_names(mv, i as int, now, keep as nat, max_age_days as nat),
        decreases ms.len() - i,
    {
        let m = ms[i].1;
        let a: u128 = if now >= m {
            now - m
        } else {
            0
        };
        let by_age = max_age_days > 0 && a > max_age;
        let by_count = keep > 0 && ms.len() > keep && older_than(&ms, i) < ms.len() - keep;
        proof {
            assert(mv[i as int] == (ms@[i as int].0@, ms@[i as int].1));
        }
        if by_age || by_count {
            let ghost before = r@;
            r.push(copy_str(ms[i].0.as_str()));
            proof {
                assert(strs_of(r@) =~= strs_of(before) + seq![mv[i as int].0]);
            }
        } else {
            assert(strs_of(r@) =~= strs_of(r@) + Seq::<Seq<char>>::empty());
        }
        i = i + 1;
    }
    r
}

/// The contents of a sequence of `String`s.
pub open spec fn strs_of(v: Seq<String>) -> Seq<Seq<char>> {
    v.map_values(|s: String| s@)
}

/// The number of matching backups modified after the cutoff `now - window`.
pub open spec fn recent_count(ms: Seq<(Seq<char>, u128)>, k: int, now: u128, window_secs: nat) -> nat
    decreases k,
{
    if k <= 0 {
        0
    } else {
        recent_count(ms, k - 1, now, window_secs) + if (ms[k - 1].1 as int) > (now as int) - window_secs
            * 1_000_000_000 {
            1nat
        } else {
            0nat
        }
    }
}

/// Counts the backups of a file modified within the last `window_secs`
/// seconds before `now` (strictly after the cutoff).
pub fn count_recent(entries: &Vec<BackupEntry>, hash: &str, now: u128, window_secs: u64) -> (c: usize)
    ensures
        c == recent_count(
            matching(entries_view(entries@), hash@),
            matching(entries_view(entries@), hash@).len() as int,
            now,
            window_secs as nat,
        ),
{
    let ms = matching_entries(entries, hash);
    let ghost mv = ms@.map_values(|p: (String, u128)| (p.0@, p.1));
    let window: u128 = (window_secs as u128) * 1_000_000_000;
    let mut c: usize = 0;
    let mut i: usize = 0;
    while i < ms.len()
        invariant
            i <= ms@.len(),
            mv == ms@.map_values(|p: (String, u128)| (p.0@, p.1)),
            mv == matching(entries_view(entries@), hash@),
            window == window_secs * 1_000_000_000,
            c == recent_count(mv, i as int, now, window_secs as nat),
            c <= i,
        decreases ms.len() - i,
    {
        let m = ms[i].1;
        proof {
            assert(mv[i as int] == (ms@[i as int].0@, ms@[i as int].1));
        }
        let recent = if window > now {
            true
        } else {
            m > now - window
        };
        if recent {
            c = c + 1;
        }
        i = i + 1;
    }
    c
}

// ---------------------------------------------------------------------------
// The latest backup
// ---------------------------------------------------------------------------

/// `a` sorts before `b` character by character (code point order, which is
/// the order of their UTF-8 bytes), a proper prefix first.
pub open spec fn name_lt(a: Seq<char>, b: Seq<char>) -> bool
    decreases a.len(),
{
    if a.len() == 0 {
        b.len() > 0
    } else if b.len() == 0 {
        false
    } else if a[0] != b[0] {
        a[0] < b[0]
    } else {
        name_lt(a.drop_first(), b.drop_first())
    }
}

proof fn lemma_name_lt_irrefl(a: Seq<char>)
    ensures
        !name_lt(a, a),
    decreases a.len(),
{
    if a.len() > 0 {
        lemma_name_lt_irrefl(a.drop_first());
    }
}

proof fn lemma_name_lt_total(a: Seq<char>, b: Seq<char>)
    ensures
        a == b || name_lt(a, b) || name_lt(b, a),
        !(name_lt(a, b) && name_lt(b, a)),
    decreases a.len(),
{
    if a.len() > 0 && b.len() > 0 {
        lemma_name_lt_total(a.drop_first(), b.drop_first());
        if a[0] == b[0] && a.drop_first() == b.drop_first() {
            assert forall|i: int| 0 <= i < a.len() implies a[i] == b[i] by {
                if i > 0 {
                    assert(a[i] == a.drop_first()[i - 1]);
                    assert(b[i] == b.drop_first()[i - 1]);
                }
            }
            assert(a =~= b);
        }
    } else if a.len() == 0 && b.len() == 0 {
        assert(a =~= b);
    }
}

proof fn lemma_name_lt_trans(a: Seq<char>, b: Seq<char>, c: Seq<char>)
    requires
        name_lt(a, b),
        name_lt(b, c),
    ensures
        name_lt(a, c),
    decreases a.len(),
{
    if a.len() > 0 && b.len() > 0 && c.len() > 0 {
        if a[0] == b[0] && b[0] == c[0] {
            lemma_name_lt_trans(a.drop_first(), b.drop_first(), c.drop_first());
        }
    }
}

/// Whether `a` sorts before `b`.
fn name_lt_exec(a: &Vec<char>, b: &Vec<char>) -> (r: bool)
    ensures
        r == name_lt(a@, b@),
{
    let mut i: usize = 0;
    assert(a@.skip(0) =~= a@);
    assert(b@.skip(0) =~= b@);
    while i < a.len() && i < b.len() && a[i] == b[i]
        invariant
            i <= a@.len(),
            i <= b@.len(),
            name_lt(a@, b@) == name_lt(a@.skip(i as int), b@.skip(i as int)),
        decreases a.len() - i,
    {
        proof {
            assert(a@.skip(i as int).drop_first() =~= a@.skip(i + 1));
            assert(b@.skip(i as int).drop_first() =~= b@.skip(i + 1));
        }
        i = i + 1;
    }
    proof {
        if i < a@.len() && i < b@.len() {
            assert(a@.skip(i as int)[0] == a@[i as int]);
            assert(b@.skip(i as int)[0] == b@[i as int]);
        }
    }
    if i == a.len() {
        i < b.len()
    } else if i == b.len() {
        false
    } else {
        a[i] < b[i]
    }
}

/// The name of the latest backup of a file: the greatest matching name
/// (backup names end in their timestamp), if any.
pub fn latest_backup_name(entries: &Vec<BackupEntry>, hash: &str) -> (r: Option<String>)
    ensures
        match r {
            Some(n) => exists|i: int|
                0 <= i < matching(entries_view(entries@), hash@).len() && matching(
                    entries_view(entries@),
                    hash@,
                )[i].0 == n@ && forall|j: int|
                    0 <= j < matching(entries_view(entries@), hash@).len() ==> !name_lt(
                        n@,
                        #[trigger] matching(entries_view(entries@), hash@)[j].0,
                    ),
            None => matching(entries_view(entries@), hash@).len() == 0,
        },
{
    let ms = matching_entries(entries, hash);
    let ghost mv = ms@.map_values(|p: (String, u128)| (p.0@, p.1));
    if ms.len() == 0 {
        return None;
    }
    let mut best: usize = 0;
    let mut best_chars = chars_of(ms[0].0.as_str());
    proof {
        lemma_name_lt_irrefl(best_chars@);
        assert(mv[0].0 == ms@[0].0@);
    }
    let mut i: usize = 1;
    while i < ms.len()
        invariant
            1 <= i <= ms@.len(),
            best < i,
            mv == ms@.map_values(|p: (String, u128)| (p.0@, p.1)),
            best_chars@ == mv[best as int].0,
            forall|j: int| 0 <= j < i ==> !name_lt(best_chars@, #[trigger] mv[j].0),
        decreases ms.len() - i,
    {
        let c = chars_of(ms[i].0.as_str());
        proof {
            assert(mv[i as int].0 == ms@[i as int].0@);
        }
        if name_lt_exec(&best_chars, &c) {
            proof {
                assert forall|j: int| 0 <= j <= i implies !name_lt(c@, #[trigger] mv[j].0) by {
                    lemma_name_lt_total(c@, mv[j].0);
                    lemma_name_lt_irrefl(c@);
                    lemma_name_lt_total(best_chars@, mv[j].0);
                    if name_lt(c@, mv[j].0) && j < i {
                        lemma_name_lt_trans(best_chars@, c@, mv[j].0);
                    }
                }
            }
            best = i;
            best_chars = c;
        } else {
            proof {
                lemma_name_lt_total(best_chars@, c@);
                assert(!name_lt(best_chars@, mv[i as int].0));
            }
        }
        i = i + 1;
    }
    proof {
        assert(mv[best as int].0 == ms@[best as int].0@);
    }
    Some(copy_str(ms[best].0.as_str()))
}

// ---------------------------------------------------------------------------
// Laws
// ---------------------------------------------------------------------------

/// Entry `j` sorts before entry `i` from oldest to newest (equal times keep
/// their order).
pub open spec fn sorts_before(ms: Seq<(Seq<char>, u128)>, j: int, i: int) -> bool {
    ms[j].1 < ms[i].1 || (ms[j].1 == ms[i].1 && j < i)
}

/// Everything older than `j` is older than `i` when `j` itself is.
proof fn lemma_older_count_mono(ms: Seq<(Seq<char>, u128)>, j: int, i: int, k: int)
    requires
        0 <= j < ms.len(),
        0 <= i < ms.len(),
        0 <= k <= ms.len(),
        sorts_before(ms, j, i),
    ensures
        older_count(ms, j, k) + (if j < k {
            1int
        } else {
            0int
        }) <= older_count(ms, i, k),
    decreases k,
{
    if k > 0 {
        lemma_older_count_mono(ms, j, i, k - 1);
    }
}

/// Retention by count purges the oldest backups: with the age rule off, a
/// backup that is purged is never newer than one that is kept.
pub proof fn law_count_purges_oldest(
    ms: Seq<(Seq<char>, u128)>,
    now: u128,
    keep: nat,
    i: int,
    j: int,
)
    requires
        0 <= i < ms.len(),
        0 <= j < ms.len(),
        purged(ms, i, now, keep, 0),
        !purged(ms, j, now, keep, 0),
    ensures
        ms[i].1 <= ms[j].1,
{
    if ms[j].1 < ms[i].1 {
        lemma_older_count_mono(ms, j, i, ms.len() as int);
    }
}

proof fn lemma_purged_names_contains(
    ms: Seq<(Seq<char>, u128)>,
    k: int,
    now: u128,
    keep: nat,
    max_age_days: nat,
    i: int,
)
    requires
        0 <= i < k <= ms.len(),
        purged(ms, i, now, keep, max_age_days),
    ensures
        purged_names(ms, k, now, keep, max_age_days).contains(ms[i].0),
    decreases k,
{
    let prev = purged_names(ms, k - 1, now, keep, max_age_days);
    if i < k - 1 {
        lemma_purged_names_contains(ms, k - 1, now, keep, max_age_days, i);
        let w = choose|x: int| 0 <= x < prev.len() && prev[x] == ms[i].0;
        assert(purged_names(ms, k, now, keep, max_age_days)[w] == ms[i].0);
    } else {
        assert(purged_names(ms, k, now, keep, max_age_days) == prev + seq![ms[i].0]);
        assert(purged_names(ms, k, now, keep, max_age_days)[prev.len() as int] == ms[i].0);
    }
}

/// The age limit holds whatever the retention count: with a maximum age
/// set, every backup modified more than that many days before `now` is
/// purged.
pub proof fn law_age_limit_purges(
    ms: Seq<(Seq<char>, u128)>,
    now: u128,
    keep: nat,
    max_age_days: nat,
    i: int,
)
    requires
        0 <= i < ms.len(),
        max_age_days > 0,
        ms[i].1 <= now,
        now - ms[i].1 > max_age_days * 86400 * 1_000_000_000,
    ensures
        purged_names(ms, ms.len() as int, now, keep, max_age_days).contains(ms[i].0),
{
    assert(purged(ms, i, now, keep, max_age_days));
    lemma_purged_names_contains(ms, ms.len() as int, now, keep, max_age_days, i);
}

proof fn lemma_matching_prefix(es: Seq<(Seq<char>, u128)>, hash: Seq<char>)
    ensures
        forall|i: int| 0 <= i < matching(es, hash).len() ==> starts_with(#[trigger] matching(es, hash)[i].0, hash),
    decreases es.len(),
{
    if es.len() > 0 {
        let init = es.drop_last();
        lemma_matching_prefix(init, hash);
        let m = matching(es, hash);
        let mi = matching(init, hash);
        assert forall|i: int| 0 <= i < m.len() implies starts_with(#[trigger] m[i].0, hash) by {
            if i < mi.len() {
                assert(m[i] == mi[i]);
            } else {
                assert(m[i] == es.last());
            }
        }
    }
}

proof fn lemma_purged_names_from(ms: Seq<(Seq<char>, u128)>, k: int, now: u128, keep: nat, max_age_days: nat)
    requires
        0 <= k <= ms.len(),
    ensures
        forall|x: int|
            #![trigger purged_names(ms, k, now, keep, max_age_days)[x]]
            0 <= x < purged_names(ms, k, now, keep, max_age_days).len() ==> exists|i: int|
                0 <= i < k && purged_names(ms, k, now, keep, max_age_days)[x] == #[trigger] ms[i].0
                    && purged(ms, i, now, keep, max_age_days),
    decreases k,
{
    if k > 0 {
        lemma_purged_names_from(ms, k - 1, now, keep, max_age_days);
        let prev = purged_names(ms, k - 1, now, keep, max_age_days);
        let cur = purged_names(ms, k, now, keep, max_age_days);
        assert forall|x: int| #![trigger cur[x]] 0 <= x < cur.len() implies exists|i: int|
            0 <= i < k && cur[x] == #[trigger] ms[i].0 && purged(ms, i, now, keep, max_age_days) by {
            if x < prev.len() {
                assert(cur[x] == prev[x]);
                let i = choose|i: int| 0 <= i < k - 1 && prev[x] == ms[i].0 && purged(ms, i, now, keep, max_age_days);
                assert(cur[x] == ms[i].0);
            } else {
                assert(cur[x] == ms[k - 1].0);
            }
        }
    }
}

/// Only the file's own backups are purged: every name selected starts with
/// the file's path hash and is the name of one of the entries.
pub proof fn law_only_own_backups_purged(
    es: Seq<(Seq<char>, u128)>,
    hash: Seq<char>,
    now: u128,
    keep: nat,
    max_age_days: nat,
)
    ensures
        ({
            let ms = matching(es, hash);
            let r = purged_names(ms, ms.len() as int, now, keep, max_age_days);
            forall|x: int|
                0 <= x < r.len() ==> starts_with(#[trigger] r[x], hash) && exists|e: int| 0 <= e < es.len() && es[e].0 == r[x]
        }),
{
    let ms = matching(es, hash);
    let r = purged_names(ms, ms.len() as int, now, keep, max_age_days);
    lemma_matching_prefix(es, hash);
    lemma_matching_from(es, hash);
    lemma_purged_names_from(ms, ms.len() as int, now, keep, max_age_days);
    assert forall|x: int| 0 <= x < r.len() implies starts_with(#[trigger] r[x], hash) && exists|e: int|
        0 <= e < es.len() && es[e].0 == r[x] by {
        let i = choose|i: int| 0 <= i < ms.len() && r[x] == ms[i].0 && purged(ms, i, now, keep, max_age_days);
        assert(starts_with(ms[i].0, hash));
        let e = choose|e: int| 0 <= e < es.len() && es[e] == ms[i];
        assert(es[e].0 == r[x]);
    }
}

proof fn lemma_matching_from(es: Seq<(Seq<char>, u128)>, hash: Seq<char>)
    ensures
        forall|i: int| 0 <= i < matching(es, hash).len() ==> exists|e: int| 0 <= e < es.len() && es[e] == #[trigger] matching(es, hash)[i],
    decreases es.len(),
{
    if es.len() > 0 {
        let init = es.drop_last();
        lemma_matching_from(init, hash);
        let m = matching(es, hash);
        let mi = matching(init, hash);
        assert forall|i: int| 0 <= i < m.len() implies exists|e: int| 0 <= e < es.len() && es[e] == #[trigger] m[i] by {
            if i < mi.len() {
                assert(m[i] == mi[i]);
                let e = choose|e: int| 0 <= e < init.len() && init[e] == mi[i];
                assert(es[e] == m[i]);
            } else {
                assert(m[i] == es[es.len() - 1]);
            }
        }
    }
}

/// Without a retention count the age limit alone decides: a backup no
/// older than the limit (or any backup, with no limit) is kept, when the
/// backups' names are distinct.
pub proof fn law_age_limit_keeps_young(
    ms: Seq<(Seq<char>, u128)>,
    now: u128,
    max_age_days: nat,
    i: int,
)
    requires
        0 <= i < ms.len(),
        forall|a: int, b: int| 0 <= a < b < ms.len() ==> #[trigger] ms[a].0 != #[trigger] ms[b].0,
        max_age_days == 0 || ms[i].1 >= now || now - ms[i].1 <= max_age_days * 86400 * 1_000_000_000,
    ensures
        !purged_names(ms, ms.len() as int, now, 0, max_age_days).contains(ms[i].0),
{
    let r = purged_names(ms, ms.len() as int, now, 0, max_age_days);
    lemma_purged_names_from(ms, ms.len() as int, now, 0, max_age_days);
    if r.contains(ms[i].0) {
        let x = choose|x: int| 0 <= x < r.len() && r[x] == ms[i].0;
        let j = choose|j: int| 0 <= j < ms.len() && r[x] == ms[j].0 && purged(ms, j, now, 0, max_age_days);
        if j != i {
            if j < i {
                assert(ms[j].0 != ms[i].0);
            } else {
                assert(ms[i].0 != ms[j].0);
            }
        }
    }
}

/// A backup's rank from oldest to newest is below the number of backups.
proof fn lemma_older_count_bound(ms: Seq<(Seq<char>, u128)>, i: int, k: int)
    requires
        0 <= i < ms.len(),
        0 <= k <= ms.len(),
    ensures
        older_count(ms, i, k) + (if i < k {
            1int
        } else {
            0int
        }) <= k,
    decreases k,
{
    if k > 0 {
        lemma_older_count_bound(ms, i, k - 1);
    }
}

/// The backups among the first `k` that are kept.
pub open spec fn kept_set(ms: Seq<(Seq<char>, u128)>, k: int, now: u128, keep: nat, max_age_days: nat) -> Set<int> {
    Set::new(|i: int| 0 <= i < k && !purged(ms, i, now, keep, max_age_days))
}

/// Among the first `k` backups, each is either purged or kept.
proof fn lemma_purged_plus_kept(ms: Seq<(Seq<char>, u128)>, k: int, now: u128, keep: nat, max_age_days: nat)
    requires
        0 <= k <= ms.len(),
    ensures
        kept_set(ms, k, now, keep, max_age_days).finite(),
        purged_names(ms, k, now, keep, max_age_days).len() + kept_set(ms, k, now, keep, max_age_days).len() == k,
    decreases k,
{
    if k == 0 {
        assert(kept_set(ms, k, now, keep, max_age_days) =~= Set::<int>::empty());
    } else {
        lemma_purged_plus_kept(ms, k - 1, now, keep, max_age_days);
        let prev = kept_set(ms, k - 1, now, keep, max_age_days);
        if purged(ms, k - 1, now, keep, max_age_days) {
            assert(kept_set(ms, k, now, keep, max_age_days) =~= prev);
        } else {
            assert(kept_set(ms, k, now, keep, max_age_days) =~= prev.insert(k - 1));
        }
    }
}

/// Retention by count keeps at most `keep` backups of a file: all matching
/// backups but at most `keep` are purged.
pub proof fn law_count_keeps_at_most(ms: Seq<(Seq<char>, u128)>, now: u128, keep: nat, max_age_days: nat)
    requires
        keep > 0,
    ensures
        ms.len() <= purged_names(ms, ms.len() as int, now, keep, max_age_days).len() + keep,
{
    let n = ms.len() as int;
    lemma_purged_plus_kept(ms, n, now, keep, max_age_days);
    if n > keep {
        let kept = kept_set(ms, n, now, keep, max_age_days);
        let rank = |i: int| older_count(ms, i, n) as int;
        let top = vstd::set_lib::set_int_range(n - keep, n);
        assert forall|a: int, b: int| kept.contains(a) && kept.contains(b) && #[trigger] rank(a) == #[trigger] rank(b) implies a == b by {
            if a != b {
                if sorts_before(ms, a, b) {
                    lemma_older_count_mono(ms, a, b, n);
                } else {
                    assert(sorts_before(ms, b, a));
                    lemma_older_count_mono(ms, b, a, n);
                }
            }
        }
        assert(vstd::relations::injective_on(rank, kept));
        vstd::set_lib::lemma_map_size(kept, kept.map(rank), rank);
        assert forall|r: int| kept.map(rank).contains(r) implies top.contains(r) by {
            let i = choose|i: int| kept.contains(i) && rank(i) == r;
            lemma_older_count_bound(ms, i, n);
        }
        vstd::set_lib::lemma_int_range(n - keep, n);
        vstd::set_lib::lemma_len_subset(kept.map(rank), top);
    }
}

/// A common prefix does not change how two names sort.
proof fn lemma_name_lt_prefix(p: Seq<char>, a: Seq<char>, b: Seq<char>)
    ensures
        name_lt(p + a, p + b) == name_lt(a, b),
    decreases p.len(),
{
    if p.len() == 0 {
        assert(p + a =~= a);
        assert(p + b =~= b);
    } else {
        assert((p + a).drop_first() =~= p.drop_first() + a);
        assert((p + b).drop_first() =~= p.drop_first() + b);
        lemma_name_lt_prefix(p.drop_first(), a, b);
    }
}

/// Names of equal length, each extended by one character, sort by the
/// names, and by the characters when the names are equal.
proof fn lemma_name_lt_push(x: Seq<char>, y: Seq<char>, c: char, d: char)
    requires
        x.len() == y.len(),
    ensures
        name_lt(x.push(c), y.push(d)) == (name_lt(x, y) || (x == y && c < d)),
    decreases x.len(),
{
    if x.len() == 0 {
        assert(x.push(c)[0] == c);
        assert(y.push(d)[0] == d);
        assert(x.push(c).drop_first() =~= Seq::<char>::empty());
        assert(y.push(d).drop_first() =~= Seq::<char>::empty());
        assert(x =~= y);
        assert(!name_lt(Seq::<char>::empty(), Seq::<char>::empty()));
        assert(!name_lt(x, y));
        if c == d {
            assert(name_lt(x.push(c), y.push(d)) == name_lt(Seq::<char>::empty(), Seq::<char>::empty()));
        }
    } else {
        assert(x.push(c)[0] == x[0]);
        assert(y.push(d)[0] == y[0]);
        assert(x.push(c).drop_first() =~= x.drop_first().push(c));
        assert(y.push(d).drop_first() =~= y.drop_first().push(d));
        lemma_name_lt_push(x.drop_first(), y.drop_first(), c, d);
        if x[0] == y[0] && x.drop_first() == y.drop_first() {
            assert forall|i: int| 0 <= i < x.len() implies x[i] == y[i] by {
                if i > 0 {
                    assert(x[i] == x.drop_first()[i - 1]);
                    assert(y[i] == y.drop_first()[i - 1]);
                }
            }
            assert(x =~= y);
        }
        if x == y {
            assert(x.drop_first() == y.drop_first());
        }
    }
}

/// The code of a decimal digit's character.
proof fn lemma_digit_code(d: nat)
    requires
        d < 10,
    ensures
        digit_char(d) as u32 == 48 + d,
{
}

/// A numeral is a single digit exactly for numbers below 10, and is never
/// empty.
proof fn lemma_decimal_len(n: nat)
    ensures
        decimal(n).len() >= 1,
        (decimal(n).len() == 1) == (n < 10),
    decreases n,
{
    if n >= 10 {
        lemma_decimal_len(n / 10);
    }
}

/// Numerals of the same length sort as their numbers do.
proof fn lemma_decimal_lt(a: nat, b: nat)
    requires
        a < b,
        decimal(a).len() == decimal(b).len(),
    ensures
        name_lt(decimal(a), decimal(b)),
    decreases b,
{
    lemma_decimal_len(a);
    lemma_decimal_len(b);
    if b < 10 {
        lemma_digit_code(a);
        lemma_digit_code(b);
        assert(decimal(a) == seq![digit_char(a)]);
        assert(decimal(b) == seq![digit_char(b)]);
        assert(decimal(a).drop_first() =~= Seq::<char>::empty());
        assert(decimal(b).drop_first() =~= Seq::<char>::empty());
    } else {
        assert(a >= 10);
        let (qa, qb) = (a / 10, b / 10);
        lemma_digit_code(a % 10);
        lemma_digit_code(b % 10);
        lemma_name_lt_push(decimal(qa), decimal(qb), digit_char(a % 10), digit_char(b % 10));
        if qa < qb {
            lemma_decimal_lt(qa, qb);
        } else {
            assert(qa == qb);
        }
    }
}

/// Later backups sort last: of two backups of a file whose timestamps have
/// as many digits (every nanosecond time between 2001 and 2286), the later
/// one has the greater name, so undoing restores the most recent backup.
pub proof fn law_later_backup_sorts_last(hash: Seq<char>, file_name: Option<Seq<char>>, t1: nat, t2: nat)
    requires
        t1 < t2,
        decimal(t1).len() == decimal(t2).len(),
    ensures
        name_lt(backup_name(hash, file_name, t1), backup_name(hash, file_name, t2)),
{
    let p = hash + "."@ + match file_name {
        Some(n) => n,
        None => "unknown"@,
    } + "."@;
    lemma_decimal_lt(t1, t2);
    lemma_name_lt_prefix(p, decimal(t1), decimal(t2));
}

} // verus!
