//! Configuration values and how environment-variable text turns into them.
//!
//! The environment itself is read by the program around the library; here
//! stand the rules that map each variable's text to a setting.
use vstd::prelude::*;
use crate::num::{decimal, parse_u64, parse_usize, parse_u64_chars, parse_usize_chars, push_decimal};
use crate::text::{chars_of, copy_str, push_str, trim, trim_chars, subvec};

verus! {

/// Defense-Ascension Level controlling resource-check strictness.
///
/// - `Baseline`: No extra resource checks beyond the standard gate.
/// - `Enhanced`: Standard checks apply.
/// - `Maximum`: Checks resources a second time before any write.
#[derive(Debug, Clone, Copy, PartialEq, Eq, Structural)]
pub enum DalLevel {
    /// Standard behavior: one check at entry, no extra gating.
    Baseline,
    /// Standard checks apply; the resource check is as for `Baseline`.
    Enhanced,
    /// A second resource check before any write.
    Maximum,
}

impl Default for DalLevel {
    fn default() -> (r: Self)
        ensures
            r == DalLevel::Baseline,
    {
        DalLevel::Baseline
    }
}

/// Whether `c` upper-cases (`char::to_uppercase`) to the single ASCII capital `up`.
///
/// Besides the capital and its ASCII lower case, U+0131 (dotless i) upper-cases to `I`
/// and U+017F (long s) to `S`; no other character upper-cases to a single ASCII letter.
pub open spec fn upper_is(c: char, up: char) -> bool {
    ||| c == up
    ||| (up as u32) + 32 == (c as u32) && 'A' <= up <= 'Z'
    ||| (up == 'I' && c == '\u{131}')
    ||| (up == 'S' && c == '\u{17f}')
}

/// `s.to_uppercase() == word` for an all-capital ASCII `word` without ligature letters.
pub open spec fn upper_equals(s: Seq<char>, word: Seq<char>) -> bool {
    s.len() == word.len() && forall|i: int| 0 <= i < s.len() ==> upper_is(#[trigger] s[i], word[i])
}

/// Whether `c` upper-cases to `up`, computed.
pub fn upper_is_exec(c: char, up: char) -> (b: bool)
    requires
        'A' <= up <= 'Z',
    ensures
        b == upper_is(c, up),
{
    c == up || (up as u32) + 32 == (c as u32) || (up == 'I' && c == '\u{131}') || (up == 'S' && c
        == '\u{17f}')
}

/// Whether `s` upper-cases to `word`, computed.
pub fn upper_equals_exec(s: &Vec<char>, word: &Vec<char>) -> (b: bool)
    requires
        forall|i: int| 0 <= i < word@.len() ==> 'A' <= #[trigger] word@[i] <= 'Z',
    ensures
        b == upper_equals(s@, word@),
{
    if s.len() != word.len() {
        return false;
    }
    let mut i: usize = 0;
    while i < s.len()
        invariant
            s@.len() == word@.len(),
            i <= s@.len(),
            forall|i: int| 0 <= i < word@.len() ==> 'A' <= #[trigger] word@[i] <= 'Z',
            forall|j: int| 0 <= j < i ==> upper_is(#[trigger] s@[j], word@[j]),
        decreases s.len() - i,
    {
        if !upper_is_exec(s[i], word[i]) {
            return false;
        }
        i = i + 1;
    }
    true
}

/// The level that the text of `SNIPER_DAL_LEVEL` names: `"Enhanced"` or
/// `"Maximum"` in any letter case, surrounding whitespace ignored; anything
/// else is `Baseline`.
pub open spec fn spec_dal_level(val: Seq<char>) -> DalLevel {
    if upper_equals(trim(val), seq!['E', 'N', 'H', 'A', 'N', 'C', 'E', 'D']) {
        DalLevel::Enhanced
    } else if upper_equals(trim(val), seq!['M', 'A', 'X', 'I', 'M', 'U', 'M']) {
        DalLevel::Maximum
    } else {
        DalLevel::Baseline
    }
}

impl DalLevel {
    /// Parses a DAL level from the text of the `SNIPER_DAL_LEVEL` environment
    /// variable (empty when it is unset).
    ///
    /// Accepts "Baseline", "Enhanced", "Maximum" (case-insensitive).
    /// Returns `Baseline` for any unrecognized value.
    pub fn from_env_value(val: &str) -> (r: DalLevel)
        ensures
            r == spec_dal_level(val@),
    {
        let t = trim_chars(&chars_of(val));
        let enhanced = vec!['E', 'N', 'H', 'A', 'N', 'C', 'E', 'D'];
        let maximum = vec!['M', 'A', 'X', 'I', 'M', 'U', 'M'];
        assert(enhanced@ == seq!['E', 'N', 'H', 'A', 'N', 'C', 'E', 'D']);
        assert(maximum@ == seq!['M', 'A', 'X', 'I', 'M', 'U', 'M']);
        if upper_equals_exec(&t, &enhanced) {
            DalLevel::Enhanced
        } else if upper_equals_exec(&t, &maximum) {
            DalLevel::Maximum
        } else {
            DalLevel::Baseline
        }
    }
}

// ---------------------------------------------------------------------------
// Sizes
// ---------------------------------------------------------------------------

/// `c` is the ASCII letter `up` in either case.
pub open spec fn letter_ci(c: char, up: char) -> bool {
    c == up || (c as u32) == (up as u32) + 32
}

/// The suffix of a trimmed size string: where the number ends and the
/// multiplier that the suffix (`GB`, `MB`, `KB`, `B`, any letter case) stands for.
pub open spec fn size_suffix(t: Seq<char>) -> (int, nat) {
    let n = t.len();
    if n >= 2 && letter_ci(t[n - 2], 'G') && letter_ci(t[n - 1], 'B') {
        (n - 2, 1024 * 1024 * 1024)
    } else if n >= 2 && letter_ci(t[n - 2], 'M') && letter_ci(t[n - 1], 'B') {
        (n - 2, 1024 * 1024)
    } else if n >= 2 && letter_ci(t[n - 2], 'K') && letter_ci(t[n - 1], 'B') {
        (n - 2, 1024)
    } else if n >= 1 && letter_ci(t[n - 1], 'B') {
        (n - 1, 1)
    } else {
        (n as int, 1)
    }
}

/// The value a size string denotes, before it is fitted into a `u64`:
/// surrounding whitespace is ignored; a `GB`, `MB`, `KB` or `B` suffix (any
/// letter case) multiplies the number before it (whitespace around it
/// ignored) by 2^30, 2^20, 2^10 or 1; without a suffix the text is a plain
/// number of bytes.
pub open spec fn size_value(s: Seq<char>) -> Option<nat> {
    let t = trim(s);
    let (e, m) = size_suffix(t);
    if e == t.len() {
        scaled(parse_u64(t), m)
    } else {
        scaled(parse_u64(trim(t.take(e))), m)
    }
}

fn letter_ci_exec(c: char, up: char) -> (b: bool)
    requires
        'A' <= up <= 'Z',
    ensures
        b == letter_ci(c, up),
{
    c == up || (c as u32) == (up as u32) + 32
}

fn size_suffix_exec(t: &Vec<char>) -> (r: (usize, u64))
    ensures
        r.0 == size_suffix(t@).0,
        r.1 == size_suffix(t@).1,
        r.0 <= t@.len(),
        r.1 >= 1,
{
    let n = t.len();
    if n >= 2 && letter_ci_exec(t[n - 2], 'G') && letter_ci_exec(t[n - 1], 'B') {
        (n - 2, 1024 * 1024 * 1024)
    } else if n >= 2 && letter_ci_exec(t[n - 2], 'M') && letter_ci_exec(t[n - 1], 'B') {
        (n - 2, 1024 * 1024)
    } else if n >= 2 && letter_ci_exec(t[n - 2], 'K') && letter_ci_exec(t[n - 1], 'B') {
        (n - 2, 1024)
    } else if n >= 1 && letter_ci_exec(t[n - 1], 'B') {
        (n - 1, 1)
    } else {
        (n, 1)
    }
}

/// The number part of a size string, and its multiplier.
fn size_parts(s: &str) -> (r: (Option<u64>, u64))
    ensures
        size_value(s@) == scaled(r.0, r.1 as nat),
        r.1 >= 1,
{
    let t = trim_chars(&chars_of(s));
    let (body_end, mult) = size_suffix_exec(&t);
    if body_end == t.len() {
        (parse_u64_chars(&t), mult)
    } else {
        let body = trim_chars(&subvec(&t, 0, body_end));
        (parse_u64_chars(&body), mult)
    }
}

pub open spec fn scaled(v: Option<u64>, m: nat) -> Option<nat> {
    match v {
        Some(x) => Some((x as nat) * m),
        None => None,
    }
}

/// A size string whose value does not overflow a `u64` (parsing it does not
/// overflow the multiplication).
pub open spec fn size_fits(s: Seq<char>) -> bool {
    match size_value(s) {
        Some(v) => v <= u64::MAX,
        None => true,
    }
}

/// Parse size string with optional suffix (KB, MB, GB, B).
///
/// Returns `None` when the text is not a number with an optional suffix.
pub fn parse_size(s: &str) -> (r: Option<u64>)
    requires
        size_fits(s@),
    ensures
        match size_value(s@) {
            Some(v) => r == Some(v as u64),
            None => r is None,
        },
{
    let (num, mult) = size_parts(s);
    match num {
        Some(x) => {
            assert(x * mult <= u64::MAX);
            Some(x * mult)
        },
        None => None,
    }
}

/// Whether `parse_size` may be called on `s`: its value, if any, fits a `u64`.
pub fn size_in_range(s: &str) -> (b: bool)
    ensures
        b == size_fits(s@),
{
    let (num, mult) = size_parts(s);
    match num {
        Some(x) => {
            proof {
                assert((x <= u64::MAX / mult) == (x * mult <= u64::MAX)) by (nonlinear_arith)
                    requires
                        mult >= 1,
                ;
            }
            x <= u64::MAX / mult
        },
        None => true,
    }
}

/// The message for a file over the size limit.
pub open spec fn too_large_message(size: nat, max_size: nat) -> Seq<char> {
    "File too large: "@ + decimal(size) + " bytes (max: "@ + decimal(max_size)
        + " bytes). Use SNIPER_MAX_FILE_SIZE to increase limit."@
}

/// Checks a file's size in bytes against the limit (0 means no limit).
pub fn check_size(size: u64, max_size: u64) -> (r: Result<(), String>)
    ensures
        match r {
            Ok(_) => max_size == 0 || size <= max_size,
            Err(m) => max_size != 0 && size > max_size && m@ == too_large_message(size as nat, max_size as nat),
        },
{
    if max_size != 0 && size > max_size {
        let mut m = copy_str("File too large: ");
        push_decimal(&mut m, size);
        push_str(&mut m, " bytes (max: ");
        push_decimal(&mut m, max_size);
        push_str(&mut m, " bytes). Use SNIPER_MAX_FILE_SIZE to increase limit.");
        Err(m)
    } else {
        Ok(())
    }
}

// ---------------------------------------------------------------------------
// Settings read from the environment
// ---------------------------------------------------------------------------

/// The integer and flag settings of the editor (the pacing scale factors,
/// which are fractional, are kept by the program).
#[derive(Debug, Clone, Copy, PartialEq, Eq, Structural)]
pub struct Settings {
    /// Timeout for lock acquisition, in seconds.
    pub lock_timeout_secs: u64,
    /// Maximum file size to edit, in bytes. 0 means unlimited.
    pub max_file_size: u64,
    /// Number of backups to retain. 0 means unlimited.
    pub backup_retention_count: usize,
    /// Age in days after which backups are purged. 0 means no age limit.
    pub backup_max_age_days: u64,
    /// Whether audit logging is enabled.
    pub audit_enabled: bool,
    /// Resource-check strictness.
    pub dal_level: DalLevel,
    /// Base sleep for pacing, in milliseconds.
    pub pid_base_ms: u64,
}

impl Default for Settings {
    fn default() -> (r: Self)
        ensures
            r == Settings::spec_default(),
    {
        Settings {
            lock_timeout_secs: 30,
            max_file_size: 100 * 1024 * 1024,
            backup_retention_count: 50,
            backup_max_age_days: 30,
            audit_enabled: true,
            dal_level: DalLevel::Baseline,
            pid_base_ms: 0,
        }
    }
}

/// The environment variables that shape the settings, as text (`None` when unset).
#[derive(Debug)]
pub struct EnvVars {
    pub lock_timeout: Option<String>,
    pub max_file_size: Option<String>,
    pub backup_retention_count: Option<String>,
    pub backup_max_age_days: Option<String>,
    pub disable_audit: bool,
    pub dal_level: Option<String>,
    pub pid_base_ms: Option<String>,
}

/// A variable whose text was not a number and was therefore ignored.
#[derive(Debug, Clone, Copy, PartialEq, Eq, Structural)]
pub enum EnvWarning {
    /// `SNIPER_LOCK_TIMEOUT` was not numeric; the default 30 s stays.
    LockTimeoutNotNumeric,
    /// `SNIPER_PID_BASE_MS` was not numeric; the default 0 ms stays.
    PidBaseNotNumeric,
}

/// The lock timeout (seconds) that the text of `SNIPER_LOCK_TIMEOUT` sets:
/// a number, whitespace around it ignored, held to 1..=60.
pub open spec fn spec_lock_timeout(val: Seq<char>) -> Option<u64> {
    match parse_u64(trim(val)) {
        Some(x) => Some(
            if x < 1 {
                1
            } else if x > 60 {
                60
            } else {
                x
            },
        ),
        None => None,
    }
}

/// The pacing base (milliseconds) that the text of `SNIPER_PID_BASE_MS` sets:
/// a number, whitespace around it ignored, held to at most 5000.
pub open spec fn spec_pid_base(val: Seq<char>) -> Option<u64> {
    match parse_u64(trim(val)) {
        Some(x) => Some(
            if x > 5000 {
                5000
            } else {
                x
            },
        ),
        None => None,
    }
}

/// The settings the environment yields.
pub open spec fn spec_settings(env: EnvVars) -> Settings {
    let d = Settings::spec_default();
    Settings {
        lock_timeout_secs: match env.lock_timeout {
            Some(v) => match spec_lock_timeout(v@) {
                Some(x) => x,
                None => d.lock_timeout_secs,
            },
            None => d.lock_timeout_secs,
        },
        max_file_size: match env.max_file_size {
            Some(v) => match size_value(v@) {
                Some(x) => x as u64,
                None => d.max_file_size,
            },
            None => d.max_file_size,
        },
        backup_retention_count: match env.backup_retention_count {
            Some(v) => match parse_usize(v@) {
                Some(x) => x,
                None => d.backup_retention_count,
            },
            None => d.backup_retention_count,
        },
        backup_max_age_days: match env.backup_max_age_days {
            Some(v) => match parse_u64(v@) {
                Some(x) => x,
                None => d.backup_max_age_days,
            },
            None => d.backup_max_age_days,
        },
        audit_enabled: !env.disable_audit,
        dal_level: match env.dal_level {
            Some(v) => spec_dal_level(v@),
            None => DalLevel::Baseline,
        },
        pid_base_ms: match env.pid_base_ms {
            Some(v) => match spec_pid_base(v@) {
                Some(x) => x,
                None => d.pid_base_ms,
            },
            None => d.pid_base_ms,
        },
    }
}

/// The warnings reading the environment gives, in order.
pub open spec fn spec_env_warnings(env: EnvVars) -> Seq<EnvWarning> {
    (match env.lock_timeout {
        Some(v) => if spec_lock_timeout(v@) is None {
            seq![EnvWarning::LockTimeoutNotNumeric]
        } else {
            seq![]
        },
        None => seq![],
    }) + (match env.pid_base_ms {
        Some(v) => if spec_pid_base(v@) is None {
            seq![EnvWarning::PidBaseNotNumeric]
        } else {
            seq![]
        },
        None => seq![],
    })
}

/// The environment never overflows a size: the size variable, if set, fits.
pub open spec fn env_fits(env: EnvVars) -> bool {
    match env.max_file_size {
        Some(v) => size_fits(v@),
        None => true,
    }
}

impl Settings {
    pub open spec fn spec_default() -> Settings {
        Settings {
            lock_timeout_secs: 30,
            max_file_size: 104857600,
            backup_retention_count: 50,
            backup_max_age_days: 30,
            audit_enabled: true,
            dal_level: DalLevel::Baseline,
            pid_base_ms: 0,
        }
    }

    /// The settings that the given environment variables select, starting
    /// from the defaults, with the warnings for ignored non-numeric values.
    pub fn from_env_vars(env: &EnvVars) -> (r: (Settings, Vec<EnvWarning>))
        requires
            env_fits(*env),
        ensures
            r.0 == spec_settings(*env),
            r.1@ == spec_env_warnings(*env),
    {
        let mut s = Settings::default();
        let mut warnings: Vec<EnvWarning> = Vec::new();
        match &env.lock_timeout {
            Some(v) => match parse_u64_chars(&trim_chars(&chars_of(v.as_str()))) {
                Some(x) => {
                    s.lock_timeout_secs = if x < 1 {
                        1
                    } else if x > 60 {
                        60
                    } else {
                        x
                    };
                },
                None => {
                    warnings.push(EnvWarning::LockTimeoutNotNumeric);
                },
            },
            None => {},
        }
        match &env.max_file_size {
            Some(v) => match parse_size(v.as_str()) {
                Some(x) => {
                    s.max_file_size = x;
                },
                None => {},
            },
            None => {},
        }
        match &env.backup_retention_count {
            Some(v) => match parse_usize_chars(&chars_of(v.as_str())) {
                Some(x) => {
                    s.backup_retention_count = x;
                },
                None => {},
            },
            None => {},
        }
        match &env.backup_max_age_days {
            Some(v) => match parse_u64_chars(&chars_of(v.as_str())) {
                Some(x) => {
                    s.backup_max_age_days = x;
                },
                None => {},
            },
            None => {},
        }
        if env.disable_audit {
            s.audit_enabled = false;
        }
        s.dal_level = match &env.dal_level {
            Some(v) => DalLevel::from_env_value(v.as_str()),
            None => DalLevel::Baseline,
        };
        let ghost w1 = warnings@;
        match &env.pid_base_ms {
            Some(v) => match parse_u64_chars(&trim_chars(&chars_of(v.as_str()))) {
                Some(x) => {
                    s.pid_base_ms = if x > 5000 {
                        5000
                    } else {
                        x
                    };
                },
                None => {
                    warnings.push(EnvWarning::PidBaseNotNumeric);
                },
            },
            None => {},
        }
        proof {
            assert(warnings@ =~= spec_env_warnings(*env));
        }
        (s, warnings)
    }

    /// Lock timeout in milliseconds, truncated to 64 bits (`as u64` of the
    /// `u128` millisecond count).
    pub fn lock_timeout_ms(&self) -> (r: u64)
        ensures
            r == ((self.lock_timeout_secs as u128) * 1000) as u64,
            self.lock_timeout_secs <= u64::MAX / 1000 ==> r == self.lock_timeout_secs * 1000,
    {
        let ms: u128 = (self.lock_timeout_secs as u128) * 1000;
        #[verifier::truncate]
        (ms as u64)
    }
}

} // verus!
