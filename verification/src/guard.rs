//! The resource gate before a write, and the memory figures reported with an
//! edit. The live readings come from `llmosafe`'s `ResourceGuard`.
use vstd::prelude::*;
use llmosafe::ResourceGuard;
use crate::config::DalLevel;
use crate::text::{copy_str, push_str};

verus! {

#[verifier::external_type_specification]
#[verifier::external_body]
pub struct ExResourceGuard(ResourceGuard);

/// The text of a failed resource check: `ResourceGuard::check` fails only
/// with `KernelError::ResourceExhaustion`, whose `Display` is this text.
pub open spec fn exhaustion_text() -> Seq<char> {
    "RSS memory exceeds configured safety ceiling"@
}

/// Calls `ResourceGuard::check`, keeping whether it passed and, when it did
/// not, the error's `Display` text. Its only error is
/// `KernelError::ResourceExhaustion`, so a failure's text is
/// `exhaustion_text()`; whether it passes depends on the process's memory
/// use at the time, so that is left open.
#[verifier::external_body]
fn guard_check(guard: &ResourceGuard) -> (r: Result<(), String>)
    ensures
        r matches Err(t) ==> t@ == exhaustion_text(),
{
    match guard.check() {
        Ok(_) => Ok(()),
        Err(e) => Err(format!("{}", e)),
    }
}

/// The view of one check: passed, or failed with the exhaustion text.
pub open spec fn check_view(passed: bool) -> Result<(), Seq<char>> {
    if passed {
        Ok(())
    } else {
        Err(exhaustion_text())
    }
}

/// The outcome of the resource gate from the outcomes of its checks: the
/// first check's failure is reported as `resource safety: ..`; at the
/// `Maximum` level a second check follows, whose failure is reported as
/// `resource safety (DAL maximum): ..`.
pub open spec fn gate_outcome(
    dal: DalLevel,
    first: Result<(), Seq<char>>,
    second: Result<(), Seq<char>>,
) -> Result<(), Seq<char>> {
    match first {
        Err(e) => Err("resource safety: "@ + e),
        Ok(_) => if dal == DalLevel::Maximum {
            match second {
                Err(e) => Err("resource safety (DAL maximum): "@ + e),
                Ok(_) => Ok(()),
            }
        } else {
            Ok(())
        },
    }
}

/// The view of a check outcome with a text error.
pub open spec fn text_result(r: Result<(), String>) -> Result<(), Seq<char>> {
    match r {
        Ok(_) => Ok(()),
        Err(e) => Err(e@),
    }
}

/// The resource check's outcome from the outcomes of its two readings (the
/// second counts only at the `Maximum` level, after a passing first one).
pub fn resource_gate(dal: DalLevel, first: Result<(), String>, second: Result<(), String>) -> (r: Result<
    (),
    String,
>)
    ensures
        text_result(r) == gate_outcome(dal, text_result(first), text_result(second)),
{
    match first {
        Err(e) => {
            let mut m = copy_str("resource safety: ");
            push_str(&mut m, e.as_str());
            Err(m)
        },
        Ok(_) => {
            if dal == DalLevel::Maximum {
                match second {
                    Err(e) => {
                        let mut m = copy_str("resource safety (DAL maximum): ");
                        push_str(&mut m, e.as_str());
                        Err(m)
                    },
                    Ok(_) => Ok(()),
                }
            } else {
                Ok(())
            }
        },
    }
}

/// The resource gate before any write: checks the guard, and checks it
/// once more at the `Maximum` level. The checks read the live state of the
/// machine, so the outcome is stated for whichever way each check went.
pub fn check_resources(guard: &ResourceGuard, dal: DalLevel) -> (r: Result<(), String>)
    ensures
        exists|first: bool, second: bool|
            text_result(r) == gate_outcome(dal, check_view(first), check_view(second)),
{
    let first = guard_check(guard);
    let second = if first.is_ok() && dal == DalLevel::Maximum {
        guard_check(guard)
    } else {
        Ok(())
    };
    let r = resource_gate(dal, first, second);
    proof {
        let a = first is Ok;
        let b = second is Ok;
        assert(text_result(first) == check_view(a));
        assert(text_result(second) == check_view(b));
        assert(text_result(r) == gate_outcome(dal, check_view(a), check_view(b)));
    }
    r
}

/// Snapshot of memory statistics at a point in time.
#[derive(Debug, Clone, Copy, PartialEq, Eq, Structural)]
pub struct MemoryStats {
    /// Total system memory in bytes.
    pub available_bytes: u64,
    /// Memory counted as used, in bytes.
    pub used_bytes: u64,
    /// Resource pressure as a percentage (0-100).
    pub pressure: u8,
}

impl MemoryStats {
    /// The figures for a reading: all of system memory available, and as
    /// used the pressure's percentage of half of it (the estimated ceiling).
    pub fn from_readings(system_mem: u64, pressure: u8) -> (r: Self)
        requires
            (system_mem / 2) * pressure <= u64::MAX,
        ensures
            r.available_bytes == system_mem,
            r.used_bytes == (system_mem / 2) * pressure / 100,
            r.pressure == pressure,
    {
        let ceiling = system_mem / 2;
        let used = ceiling * (pressure as u64) / 100;
        MemoryStats { available_bytes: system_mem, used_bytes: used, pressure }
    }
}

} // verus!
