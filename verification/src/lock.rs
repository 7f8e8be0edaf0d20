//! The per-file edit lock: the decisions of acquiring it, one step at a
//! time. The caller performs each action (create the lock file, wait, read
//! the holder's PID, look the holder up, remove a stale lock) and reports
//! what happened; `lock_step` says what to do next.
use vstd::prelude::*;
use crate::num::{decimal, parse_u64, parse_u64_chars, push_decimal};
use crate::security::{path_debug, path_debug_text};
use crate::text::{copy_str, push_str, trim, trim_chars, chars_of};

verus! {

/// A held lock: the path of its lock file.
#[derive(Debug)]
pub struct SniperLock {
    pub lock_path: String,
}

/// The `Debug` text of a `std::time::Duration` of `secs` seconds and
/// `nanos` nanoseconds.
pub uninterp spec fn duration_debug_text(secs: nat, nanos: nat) -> Seq<char>;

/// Formats `Duration::new(secs, nanos)` with `Debug`; the contract names the
/// text `duration_debug_text(secs, nanos)`.
#[verifier::external_body]
fn duration_debug(secs: u64, nanos: u32) -> (r: String)
    requires
        nanos < 1_000_000_000,
    ensures
        r@ == duration_debug_text(secs as nat, nanos as nat),
{
    format!("{:?}", std::time::Duration::new(secs, nanos))
}

/// A lock acquisition in progress.
#[derive(Debug)]
pub struct LockAttempt {
    /// The file being locked, as the user named it.
    pub filepath: String,
    /// The lock file's path.
    pub lock_path: String,
    /// The timeout: whole seconds and nanoseconds.
    pub timeout_secs: u64,
    pub timeout_nanos: u32,
    /// The holder's PID, once read.
    pub holder: Option<u32>,
}

/// What happened to the last action.
#[derive(Debug)]
pub enum LockEvent {
    /// The lock file was created (and our PID written into it).
    Created,
    /// The lock file already exists; how long the attempt has lasted
    /// (seconds, nanoseconds), or `None` when the clock went backwards.
    Busy { elapsed: Option<(u64, u32)> },
    /// Creating the lock file failed otherwise, with this error text.
    OpenFailed(String),
    /// The lock file's contents, or `None` when it could not be read.
    HolderText(Option<String>),
    /// Whether the holder process is alive.
    HolderAlive(bool),
}

/// What to do next.
#[derive(Debug)]
pub enum LockAction {
    /// The lock is held.
    Acquired,
    /// Wait 50 ms, then try to create the lock file again.
    WaitAndRetry,
    /// Read the lock file to learn the holder's PID.
    ReadHolder,
    /// Find out whether the process with this PID is alive.
    CheckAlive(u32),
    /// The holder is gone: remove the stale lock file and try again at once.
    RemoveAndRetry,
    /// Give up with this message.
    Fail(String),
}

/// The view of an action.
pub enum LockActionView {
    Acquired,
    WaitAndRetry,
    ReadHolder,
    CheckAlive(u32),
    RemoveAndRetry,
    Fail(Seq<char>),
}

/// The view of an action.
pub open spec fn action_view(a: LockAction) -> LockActionView {
    match a {
        LockAction::Acquired => LockActionView::Acquired,
        LockAction::WaitAndRetry => LockActionView::WaitAndRetry,
        LockAction::ReadHolder => LockActionView::ReadHolder,
        LockAction::CheckAlive(p) => LockActionView::CheckAlive(p),
        LockAction::RemoveAndRetry => LockActionView::RemoveAndRetry,
        LockAction::Fail(m) => LockActionView::Fail(m@),
    }
}

/// `(s1, n1)` is a longer time than `(s2, n2)`.
pub open spec fn longer(s1: nat, n1: nat, s2: nat, n2: nat) -> bool {
    s1 > s2 || (s1 == s2 && n1 > n2)
}

/// The attempt has lasted longer than the timeout; a clock that went
/// backwards counts as one second past it.
pub open spec fn timed_out(elapsed: Option<(u64, u32)>, timeout_secs: u64, timeout_nanos: u32) -> bool {
    match elapsed {
        Some((s, n)) => longer(s as nat, n as nat, timeout_secs as nat, timeout_nanos as nat),
        None => true,
    }
}

/// The holder's PID as the lock file gives it: its trimmed text read as a
/// `u32`.
pub open spec fn holder_pid(text: Seq<char>) -> Option<u32> {
    match parse_u64(trim(text)) {
        Some(v) => if v <= u32::MAX {
            Some(v as u32)
        } else {
            None
        },
        None => None,
    }
}

/// The message when the lock stays held past the timeout.
pub open spec fn timeout_message(
    holder: Option<u32>,
    filepath: Seq<char>,
    timeout_secs: u64,
    timeout_nanos: u32,
    lock_path: Seq<char>,
) -> Seq<char> {
    "timeout: another sniper process (PID "@ + match holder {
        Some(p) => decimal(p as nat),
        None => "unknown"@,
    } + ") is editing "@ + filepath + " (lock held for >"@ + duration_debug_text(
        timeout_secs as nat,
        timeout_nanos as nat,
    ) + "; lock file: "@ + path_debug_text(lock_path) + ")"@
}

/// The next action: a created lock is held; a busy lock is waited on until
/// the timeout, then its holder is read; a holder that cannot be read or
/// parsed, or that is alive, makes the attempt fail with the timeout
/// message; a dead holder's lock is removed and the attempt retried; any
/// other failure to create the lock file fails the attempt.
pub open spec fn spec_lock_step(st: LockAttempt, ev: LockEvent) -> (Option<u32>, LockActionView) {
    let fail = |h: Option<u32>|
        LockActionView::Fail(
            timeout_message(h, st.filepath@, st.timeout_secs, st.timeout_nanos, st.lock_path@),
        );
    match ev {
        LockEvent::Created => (st.holder, LockActionView::Acquired),
        LockEvent::Busy { elapsed } => if timed_out(elapsed, st.timeout_secs, st.timeout_nanos) {
            (st.holder, LockActionView::ReadHolder)
        } else {
            (st.holder, LockActionView::WaitAndRetry)
        },
        LockEvent::OpenFailed(e) => (
            st.holder,
            LockActionView::Fail("lock acquire for "@ + st.filepath@ + ": "@ + e@),
        ),
        LockEvent::HolderText(t) => {
            let h = match t {
                Some(text) => holder_pid(text@),
                None => None,
            };
            match h {
                Some(p) => (h, LockActionView::CheckAlive(p)),
                None => (h, fail(h)),
            }
        },
        LockEvent::HolderAlive(alive) => if alive {
            (st.holder, fail(st.holder))
        } else {
            (st.holder, LockActionView::RemoveAndRetry)
        },
    }
}

/// Reads the holder's PID from the lock file's text.
pub fn parse_holder_pid(text: &str) -> (r: Option<u32>)
    ensures
        r == holder_pid(text@),
{
    let v = chars_of(text);
    let t = trim_chars(&v);
    match parse_u64_chars(&t) {
        Some(x) => {
            if x <= u32::MAX as u64 {
                Some(x as u32)
            } else {
                None
            }
        },
        None => None,
    }
}

fn timeout_text(st: &LockAttempt, holder: Option<u32>) -> (r: String)
    requires
        st.timeout_nanos < 1_000_000_000,
    ensures
        r@ == timeout_message(holder, st.filepath@, st.timeout_secs, st.timeout_nanos, st.lock_path@),
{
    let mut m = copy_str("timeout: another sniper process (PID ");
    match holder {
        Some(p) => push_decimal(&mut m, p as u64),
        None => push_str(&mut m, "unknown"),
    }
    push_str(&mut m, ") is editing ");
    push_str(&mut m, st.filepath.as_str());
    push_str(&mut m, " (lock held for >");
    let d = duration_debug(st.timeout_secs, st.timeout_nanos);
    push_str(&mut m, d.as_str());
    push_str(&mut m, "; lock file: ");
    let p = path_debug(st.lock_path.as_str());
    push_str(&mut m, p.as_str());
    push_str(&mut m, ")");
    m
}

/// Decides the next action of a lock acquisition from what the last one
/// gave, recording the holder's PID once it is read.
pub fn lock_step(st: LockAttempt, ev: LockEvent) -> (r: (LockAttempt, LockAction))
    requires
        st.timeout_nanos < 1_000_000_000,
    ensures
        (r.0.holder, action_view(r.1)) == spec_lock_step(st, ev),
        r.0.filepath == st.filepath,
        r.0.lock_path == st.lock_path,
        r.0.timeout_secs == st.timeout_secs,
        r.0.timeout_nanos == st.timeout_nanos,
{
    match ev {
        LockEvent::Created => (st, LockAction::Acquired),
        LockEvent::Busy { elapsed } => {
            let out = match elapsed {
                Some((s, n)) => s > st.timeout_secs || (s == st.timeout_secs && n > st.timeout_nanos),
                None => true,
            };
            if out {
                (st, LockAction::ReadHolder)
            } else {
                (st, LockAction::WaitAndRetry)
            }
        },
        LockEvent::OpenFailed(e) => {
            let mut m = copy_str("lock acquire for ");
            push_str(&mut m, st.filepath.as_str());
            push_str(&mut m, ": ");
            push_str(&mut m, e.as_str());
            (st, LockAction::Fail(m))
        },
        LockEvent::HolderText(t) => {
            let h = match &t {
                Some(text) => parse_holder_pid(text.as_str()),
                None => None,
            };
            let mut st = st;
            st.holder = h;
            match h {
                Some(p) => (st, LockAction::CheckAlive(p)),
                None => {
                    let m = timeout_text(&st, h);
                    (st, LockAction::Fail(m))
                },
            }
        },
        LockEvent::HolderAlive(alive) => {
            if alive {
                let m = timeout_text(&st, st.holder);
                (st, LockAction::Fail(m))
            } else {
                (st, LockAction::RemoveAndRetry)
            }
        },
    }
}

// ---------------------------------------------------------------------------
// Laws
// ---------------------------------------------------------------------------

/// The lock is held only once its file was created, and a lock file is
/// removed only after its holder was found dead: a live holder keeps its
/// lock.
pub proof fn law_lock_safety(st: LockAttempt, ev: LockEvent)
    ensures
        spec_lock_step(st, ev).1 is Acquired ==> ev is Created,
        spec_lock_step(st, ev).1 is RemoveAndRetry ==> (ev matches LockEvent::HolderAlive(alive) && !alive),
        spec_lock_step(st, ev).1 is WaitAndRetry ==> (ev matches LockEvent::Busy { elapsed } && !timed_out(
            elapsed,
            st.timeout_secs,
            st.timeout_nanos,
        )),
{
}

} // verus!
