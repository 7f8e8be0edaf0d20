//! Error texts: the message for a failed file operation, with the special
//! case of the backtrack signal, and the hint that accompanies an error.
use vstd::prelude::*;
use crate::text::{chars_of, contains, contains_exec, copy_str, push_str};

verus! {

#[verifier::external_type_specification]
#[verifier::external_body]
pub struct ExIoError(std::io::Error);

/// Calls `std::io::Error::raw_os_error`; nothing is claimed of the code it
/// gives.
#[verifier::external_body]
fn raw_os_error(e: &std::io::Error) -> Option<i32> {
    e.raw_os_error()
}

/// Formats the error with `Display`; nothing is claimed of the text.
#[verifier::external_body]
fn io_error_text(e: &std::io::Error) -> String {
    format!("{}", e)
}

/// The message for a failed operation: for OS error code -7 (the backtrack
/// signal), the critical notice naming `context`; otherwise `context`, a
/// colon, and the error's text.
pub open spec fn backtrack_text(code: Option<i32>, text: Seq<char>, context: Seq<char>) -> Seq<char> {
    if code == Some(-7i32) {
        "CRITICAL: "@ + context
            + " aborted via llmosafe Backtrack Signal (-7). Immune memory triggered: current state matches a previously rolled-back failure pattern."@
    } else {
        context + ": "@ + text
    }
}

/// Builds the message for a failed operation from the error's OS code and
/// text.
pub fn backtrack_message(code: Option<i32>, text: &str, context: &str) -> (r: String)
    ensures
        r@ == backtrack_text(code, text@, context@),
{
    let minus_seven: i32 = -7;
    match code {
        Some(c) if c == minus_seven => {
            let mut m = copy_str("CRITICAL: ");
            push_str(&mut m, context);
            push_str(
                &mut m,
                " aborted via llmosafe Backtrack Signal (-7). Immune memory triggered: current state matches a previously rolled-back failure pattern.",
            );
            m
        },
        _ => {
            let mut m = copy_str(context);
            push_str(&mut m, ": ");
            push_str(&mut m, text);
            m
        },
    }
}

/// Centralized handling of the backtrack signal (-7): an I/O error with
/// that raw OS code gives the distinctive critical message, any other error
/// `"{context}: {error}"`.
pub fn handle_backtrack_error(e: std::io::Error, context: &str) -> (r: String)
    ensures
        exists|code: Option<i32>, text: Seq<char>| r@ == backtrack_text(code, text, context@),
{
    let code = raw_os_error(&e);
    let text = io_error_text(&e);
    backtrack_message(code, text.as_str(), context)
}

/// The hint that accompanies an error message.
pub open spec fn error_hint(msg: Seq<char>) -> Seq<char> {
    if contains(msg, "no such file"@) || contains(msg, "not found"@) {
        "check path exists before editing"@
    } else if contains(msg, "out of bounds"@) || contains(msg, "exceeds file length"@) {
        "read file first to check line count"@
    } else {
        "fix error and retry"@
    }
}

/// Picks the hint for an error message: check the path for a missing file,
/// read the file for a bad line range, otherwise fix and retry.
pub fn hint_for_error(msg: &str) -> (r: String)
    ensures
        r@ == error_hint(msg@),
{
    let m = chars_of(msg);
    let a = chars_of("no such file");
    let b = chars_of("not found");
    let c = chars_of("out of bounds");
    let d = chars_of("exceeds file length");
    if contains_exec(&m, &a) || contains_exec(&m, &b) {
        copy_str("check path exists before editing")
    } else if contains_exec(&m, &c) || contains_exec(&m, &d) {
        copy_str("read file first to check line count")
    } else {
        copy_str("fix error and retry")
    }
}

} // verus!
