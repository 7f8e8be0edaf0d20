//! The command line: which command the arguments ask for, with which flags;
//! line numbers; the decode command; and the hints that accompany results.
use vstd::prelude::*;
use crate::context::{compute_context_hash, context_hash};
use crate::hex::{hex_decode, spec_hex_decode, result_view};
use crate::lines::{str_lines, str_lines_exec, strs};
use crate::num::{decimal, parse_usize, parse_usize_chars, push_decimal};
use crate::splice::{check_range, range_error};
use crate::text::{chars_of, copy_str, push_str, string_of_range, trim, trim_chars, string_of, same_text};

verus! {

// ---------------------------------------------------------------------------
// Line numbers and small commands
// ---------------------------------------------------------------------------

/// A line number as the command line gives it, or the error for it.
pub open spec fn spec_parse_line(s: Seq<char>) -> Result<usize, Seq<char>> {
    match parse_usize(s) {
        Some(n) => Ok(n),
        None => Err("invalid line number: "@ + s),
    }
}

/// Reads a line number (`usize`'s `FromStr`); otherwise the error names the
/// text.
pub fn parse_line(s: &str) -> (r: Result<usize, String>)
    ensures
        match r {
            Ok(n) => spec_parse_line(s@) == Ok::<usize, Seq<char>>(n),
            Err(m) => spec_parse_line(s@) == Err::<usize, Seq<char>>(m@),
        },
{
    let v = chars_of(s);
    match parse_usize_chars(&v) {
        Some(n) => Ok(n),
        None => {
            let mut m = copy_str("invalid line number: ");
            push_str(&mut m, s);
            Err(m)
        },
    }
}

/// The two line numbers of a range, the start's error first.
pub open spec fn spec_parse_range(start: Seq<char>, end: Seq<char>) -> Result<(usize, usize), Seq<char>> {
    match (spec_parse_line(start), spec_parse_line(end)) {
        (Ok(s), Ok(e)) => Ok((s, e)),
        (Err(m), _) => Err(m),
        (_, Err(m)) => Err(m),
    }
}

/// Reads the two line numbers of a range.
pub fn parse_range(start: &str, end: &str) -> (r: Result<(usize, usize), String>)
    ensures
        match r {
            Ok(p) => spec_parse_range(start@, end@) == Ok::<(usize, usize), Seq<char>>(p),
            Err(m) => spec_parse_range(start@, end@) == Err::<(usize, usize), Seq<char>>(m@),
        },
{
    let s = parse_line(start);
    let e = parse_line(end);
    match s {
        Err(m) => Err(m),
        Ok(a) => match e {
            Err(m) => Err(m),
            Ok(b) => Ok((a, b)),
        },
    }
}

/// What the decode command gives for its input: the decoded text, or an
/// error for blank input or bad hex.
pub open spec fn spec_decode_input(s: Seq<char>) -> Result<Seq<char>, Seq<char>> {
    let input = trim(s);
    if input.len() == 0 {
        Err("decode requires a hex string"@)
    } else {
        match spec_hex_decode(input) {
            Ok(t) => Ok(t),
            Err(m) => Err("hex decode: "@ + m),
        }
    }
}

/// The decode command: trims the input, refuses it when blank, and decodes
/// it.
pub fn decode_input(s: &str) -> (r: Result<String, String>)
    ensures
        result_view(r) == spec_decode_input(s@),
{
    let v = chars_of(s);
    let t = trim_chars(&v);
    if t.len() == 0 {
        return Err(copy_str("decode requires a hex string"));
    }
    let input = string_of(&t);
    match hex_decode(input.as_str()) {
        Ok(text) => Ok(text),
        Err(m) => {
            let mut e = copy_str("hex decode: ");
            push_str(&mut e, m.as_str());
            Err(e)
        },
    }
}

/// What the context command gives: the range check, then the first 16
/// characters of the context hash.
pub open spec fn spec_context_command(ls: Seq<Seq<char>>, start: nat, end: nat) -> Result<Seq<char>, Seq<char>> {
    match range_error(start, end, ls.len()) {
        Some(m) => Err(m),
        None => Ok(context_hash(ls, start as int, end as int).take(16)),
    }
}

/// The context command: checks the range, then gives the short context hash
/// (16 hex characters) that a later edit can pass as `--context`.
pub fn context_command(lines: &[String], start: usize, end: usize) -> (r: Result<String, String>)
    requires
        end < usize::MAX,
        lines@.len() + 4 <= usize::MAX,
    ensures
        result_view(r) == spec_context_command(strs(lines@), start as nat, end as nat),
{
    match check_range(start, end, lines.len()) {
        Err(m) => Err(m),
        Ok(_) => {
            let full = compute_context_hash(lines, start, end);
            let v = chars_of(full.as_str());
            let short = string_of_range(&v, 0, 16);
            assert(v@.subrange(0, 16) =~= v@.take(16));
            Ok(short)
        },
    }
}

// ---------------------------------------------------------------------------
// Hints
// ---------------------------------------------------------------------------

/// The hint after an edit: batch when the file was edited several times
/// recently, otherwise re-read the edited place.
pub open spec fn spec_edit_hint(file: Seq<char>, start: nat, end: nat, is_delete: bool, promoted: bool) -> Seq<char> {
    if promoted {
        "Multiple edits to this file. Consider batching with manifest."@
    } else if is_delete {
        "verify: "@ + file + " around line "@ + decimal(start)
    } else {
        "verify: read "@ + file + " lines "@ + decimal(start) + "-"@ + decimal(end)
    }
}

/// The hint after an edit (or its dry run, which is never `promoted`).
pub fn edit_hint(file: &str, start: usize, end: usize, is_delete: bool, promoted: bool) -> (r: String)
    ensures
        r@ == spec_edit_hint(file@, start as nat, end as nat, is_delete, promoted),
{
    if promoted {
        copy_str("Multiple edits to this file. Consider batching with manifest.")
    } else if is_delete {
        let mut m = copy_str("verify: ");
        push_str(&mut m, file);
        push_str(&mut m, " around line ");
        push_decimal(&mut m, start as u64);
        m
    } else {
        let mut m = copy_str("verify: read ");
        push_str(&mut m, file);
        push_str(&mut m, " lines ");
        push_decimal(&mut m, start as u64);
        push_str(&mut m, "-");
        push_decimal(&mut m, end as u64);
        m
    }
}

/// Several edits to a file within the lock timeout promote the hint to
/// batching: three or more recent backups.
pub fn edits_promoted(recent_backups: usize) -> (b: bool)
    ensures
        b == (recent_backups >= 3),
{
    recent_backups >= 3
}

/// The hint after a manifest: re-read around its first (lowest-numbered
/// after ordering) operation, or line 1 without operations.
pub fn manifest_hint(file: &str, first_start: Option<usize>) -> (r: String)
    ensures
        r@ == "verify: read "@ + file@ + " around line "@ + decimal(
            match first_start {
                Some(s) => s as nat,
                None => 1,
            },
        ),
{
    let mut m = copy_str("verify: read ");
    push_str(&mut m, file);
    push_str(&mut m, " around line ");
    let n = match first_start {
        Some(s) => s,
        None => 1,
    };
    push_decimal(&mut m, n as u64);
    m
}

/// The hint after an undo.
pub fn undo_hint(file: &str) -> (r: String)
    ensures
        r@ == "verify restore: read "@ + file@,
{
    let mut m = copy_str("verify restore: read ");
    push_str(&mut m, file);
    m
}

// ---------------------------------------------------------------------------
// Arguments
// ---------------------------------------------------------------------------

/// A flag that may stand anywhere among the arguments.
pub open spec fn is_flag(a: Seq<char>) -> bool {
    a == "--dry-run"@ || a == "--json"@ || a == "--stdin"@ || a == "--auto-indent"@ || a
        == "--force-indent"@
}

/// Some argument is `x`.
pub open spec fn has_arg(args: Seq<Seq<char>>, x: Seq<char>) -> bool {
    exists|i: int| 0 <= i < args.len() && args[i] == x
}

/// The first position of `x` among the arguments.
pub open spec fn first_pos(args: Seq<Seq<char>>, x: Seq<char>) -> Option<int>
    decreases args.len(),
{
    if args.len() == 0 {
        None
    } else {
        match first_pos(args.drop_last(), x) {
            Some(p) => Some(p),
            None => if args.last() == x {
                Some(args.len() - 1)
            } else {
                None
            },
        }
    }
}

/// The arguments left once the flags, and `--context` with its value, are
/// taken out.
pub open spec fn kept_args(args: Seq<Seq<char>>, ctx: Option<int>) -> Seq<Seq<char>>
    decreases args.len(),
{
    if args.len() == 0 {
        seq![]
    } else {
        let k = kept_args(args.drop_last(), ctx);
        let i = args.len() - 1;
        if (ctx matches Some(p) && (i == p || i == p + 1)) || is_flag(args[i]) {
            k
        } else {
            k.push(args[i])
        }
    }
}

/// The command the arguments ask for.
#[derive(Debug)]
pub enum Command {
    Help,
    Version,
    /// Decode hex read from standard input.
    DecodeStdin,
    /// Decode hex read from a file.
    DecodeFile(String),
    /// Decode the given hex.
    Decode(String),
    /// Encode text read from standard input.
    EncodeStdin,
    /// Encode text read from a file.
    EncodeFile(String),
    /// Encode the given text.
    Encode(String),
    /// Give the context hash of a range of a file.
    Context { file: String, start: usize, end: usize },
    /// Restore a file from its latest backup.
    Undo(String),
    /// Apply a manifest read from standard input.
    ManifestStdin(String),
    /// Apply a manifest read from a file.
    Manifest { file: String, manifest: String },
    /// Splice content (empty for a delete) over a range of a file.
    Splice { file: String, start: usize, end: usize, content: String },
    /// Splice content read from standard input over a range given as text
    /// (read once the input is in).
    SpliceStdin { file: String, start: String, end: String },
    /// Refused with this message.
    Fail(String),
    /// The arguments match no command.
    BadArgs,
}

/// The view of a command.
pub enum CommandView {
    Help,
    Version,
    DecodeStdin,
    DecodeFile(Seq<char>),
    Decode(Seq<char>),
    EncodeStdin,
    EncodeFile(Seq<char>),
    Encode(Seq<char>),
    Context(Seq<char>, usize, usize),
    Undo(Seq<char>),
    ManifestStdin(Seq<char>),
    Manifest(Seq<char>, Seq<char>),
    Splice(Seq<char>, usize, usize, Seq<char>),
    SpliceStdin(Seq<char>, Seq<char>, Seq<char>),
    Fail(Seq<char>),
    BadArgs,
}

/// The view of a command.
pub open spec fn command_view(c: Command) -> CommandView {
    match c {
        Command::Help => CommandView::Help,
        Command::Version => CommandView::Version,
        Command::DecodeStdin => CommandView::DecodeStdin,
        Command::DecodeFile(p) => CommandView::DecodeFile(p@),
        Command::Decode(h) => CommandView::Decode(h@),
        Command::EncodeStdin => CommandView::EncodeStdin,
        Command::EncodeFile(p) => CommandView::EncodeFile(p@),
        Command::Encode(t) => CommandView::Encode(t@),
        Command::Context { file, start, end } => CommandView::Context(file@, start, end),
        Command::Undo(f) => CommandView::Undo(f@),
        Command::ManifestStdin(f) => CommandView::ManifestStdin(f@),
        Command::Manifest { file, manifest } => CommandView::Manifest(file@, manifest@),
        Command::Splice { file, start, end, content } => CommandView::Splice(file@, start, end, content@),
        Command::SpliceStdin { file, start, end } => CommandView::SpliceStdin(file@, start@, end@),
        Command::Fail(m) => CommandView::Fail(m@),
        Command::BadArgs => CommandView::BadArgs,
    }
}

/// The command for the kept arguments, tried in this order: decode (from
/// standard input, a file, or an argument), encode (likewise), context,
/// undo, manifest (from standard input or a file), delete, splice from
/// standard input, splice of hex content.
pub open spec fn spec_command(k: Seq<Seq<char>>, stdin: bool) -> CommandView {
    let n = k.len();
    if n == 1 && k[0] == "decode"@ && stdin {
        CommandView::DecodeStdin
    } else if n == 3 && k[0] == "decode"@ && k[1] == "--file"@ {
        CommandView::DecodeFile(k[2])
    } else if n == 2 && k[0] == "decode"@ {
        CommandView::Decode(k[1])
    } else if n == 1 && k[0] == "encode"@ && stdin {
        CommandView::EncodeStdin
    } else if n == 3 && k[0] == "encode"@ && k[1] == "--file"@ {
        CommandView::EncodeFile(k[2])
    } else if n == 2 && k[0] == "encode"@ {
        CommandView::Encode(k[1])
    } else if n == 4 && k[0] == "context"@ {
        match spec_parse_range(k[2], k[3]) {
            Ok((s, e)) => CommandView::Context(k[1], s, e),
            Err(m) => CommandView::Fail(m),
        }
    } else if n == 2 && k[1] == "--undo"@ {
        CommandView::Undo(k[0])
    } else if n == 2 && k[1] == "--manifest"@ && stdin {
        CommandView::ManifestStdin(k[0])
    } else if n == 3 && k[1] == "--manifest"@ {
        CommandView::Manifest(k[0], k[2])
    } else if n == 4 && k[3] == "--delete"@ {
        if stdin {
            CommandView::Fail("cannot use --stdin with --delete"@)
        } else {
            match spec_parse_range(k[1], k[2]) {
                Ok((s, e)) => CommandView::Splice(k[0], s, e, Seq::<char>::empty()),
                Err(m) => CommandView::Fail(m),
            }
        }
    } else if n == 3 && stdin {
        CommandView::SpliceStdin(k[0], k[1], k[2])
    } else if n == 4 {
        match spec_parse_range(k[1], k[2]) {
            Ok((s, e)) => match spec_hex_decode(k[3]) {
                Ok(c) => CommandView::Splice(k[0], s, e, c),
                Err(m) => CommandView::Fail("hex decode: "@ + m),
            },
            Err(m) => CommandView::Fail(m),
        }
    } else {
        CommandView::BadArgs
    }
}

/// A parsed command line: the command and the flags.
#[derive(Debug)]
pub struct Invocation {
    pub command: Command,
    pub dry_run: bool,
    pub json: bool,
    pub stdin: bool,
    pub auto_indent: bool,
    pub force_indent: bool,
    /// The value after the first `--context`, if any.
    pub context_hash: Option<String>,
}

/// What the command line asks for: help for no arguments or `-h`/`--help`
/// first, the version for `-v`/`--version` first; otherwise the flags found
/// anywhere, the value of the first `--context`, and the command of the
/// remaining arguments.
pub open spec fn spec_invocation_command(args: Seq<Seq<char>>) -> CommandView {
    if args.len() == 0 || args[0] == "-h"@ || args[0] == "--help"@ {
        CommandView::Help
    } else if args[0] == "-v"@ || args[0] == "--version"@ {
        CommandView::Version
    } else {
        spec_command(kept_args(args, first_pos(args, "--context"@)), has_arg(args, "--stdin"@))
    }
}

/// The `--context` value: the argument after the first `--context`.
pub open spec fn spec_context_value(args: Seq<Seq<char>>) -> Option<Seq<char>> {
    match first_pos(args, "--context"@) {
        Some(p) => if p + 1 < args.len() {
            Some(args[p + 1])
        } else {
            None
        },
        None => None,
    }
}

/// Whether some argument is `x`.
fn has_arg_exec(args: &Vec<String>, x: &str) -> (b: bool)
    ensures
        b == has_arg(strs(args@), x@),
{
    let mut i: usize = 0;
    while i < args.len()
        invariant
            i <= args@.len(),
            forall|j: int| 0 <= j < i ==> strs(args@)[j] != x@,
        decreases args.len() - i,
    {
        if same_text(args[i].as_str(), x) {
            assert(strs(args@)[i as int] == x@);
            return true;
        }
        i = i + 1;
    }
    false
}

proof fn lemma_first_pos(args: Seq<Seq<char>>, x: Seq<char>, i: int)
    requires
        0 <= i <= args.len(),
        forall|j: int| 0 <= j < i ==> args[j] != x,
    ensures
        i < args.len() && args[i] == x ==> first_pos(args, x) == Some(i),
        i == args.len() ==> first_pos(args, x) is None,
    decreases args.len(),
{
    if args.len() > 0 {
        if i < args.len() {
            if i < args.len() - 1 {
                lemma_first_pos(args.drop_last(), x, i);
            } else {
                lemma_first_pos(args.drop_last(), x, i);
            }
        } else {
            lemma_first_pos(args.drop_last(), x, i - 1);
        }
    }
}

/// The first position of `x`, if any.
fn first_pos_exec(args: &Vec<String>, x: &str) -> (r: Option<usize>)
    ensures
        match r {
            Some(p) => first_pos(strs(args@), x@) == Some(p as int) && p < args@.len(),
            None => first_pos(strs(args@), x@) is None,
        },
{
    let mut i: usize = 0;
    while i < args.len()
        invariant
            i <= args@.len(),
            forall|j: int| 0 <= j < i ==> strs(args@)[j] != x@,
        decreases args.len() - i,
    {
        if same_text(args[i].as_str(), x) {
            proof {
                lemma_first_pos(strs(args@), x@, i as int);
            }
            return Some(i);
        }
        i = i + 1;
    }
    proof {
        lemma_first_pos(strs(args@), x@, i as int);
    }
    None
}

/// Whether an argument is one of the flags.
fn is_flag_exec(a: &str) -> (b: bool)
    ensures
        b == is_flag(a@),
{
    same_text(a, "--dry-run") || same_text(a, "--json") || same_text(a, "--stdin") || same_text(
        a,
        "--auto-indent",
    ) || same_text(a, "--force-indent")
}

/// The arguments without the flags and the `--context` pair.
fn kept_args_exec(args: &Vec<String>, ctx: Option<usize>) -> (r: Vec<String>)
    ensures
        strs(r@) == kept_args(strs(args@), match ctx {
            Some(p) => Some(p as int),
            None => None,
        }),
{
    let ghost c = match ctx {
        Some(p) => Some(p as int),
        None => None::<int>,
    };
    let ghost a = strs(args@);
    let mut r: Vec<String> = Vec::new();
    let mut i: usize = 0;
    assert(a.take(0) == Seq::<Seq<char>>::empty());
    while i < args.len()
        invariant
            i <= args@.len(),
            a == strs(args@),
            c == match ctx {
                Some(p) => Some(p as int),
                None => None::<int>,
            },
            strs(r@) == kept_args(a.take(i as int), c),
        decreases args.len() - i,
    {
        proof {
            assert(a.take(i + 1).drop_last() == a.take(i as int));
            assert(a.take(i + 1).last() == a[i as int]);
            assert(a.take(i + 1)[i as int] == a[i as int]);
        }
        let skip_ctx = match ctx {
            Some(p) => i == p || (p < usize::MAX && i == p + 1),
            None => false,
        };
        if !skip_ctx && !is_flag_exec(args[i].as_str()) {
            let ghost before = strs(r@);
            r.push(copy_str(args[i].as_str()));
            proof {
                assert(strs(r@) =~= before.push(a[i as int]));
            }
        }
        i = i + 1;
    }
    assert(a.take(args@.len() as int) == a);
    r
}

/// Reads the command line.
pub fn parse_invocation(args: &Vec<String>) -> (r: Invocation)
    ensures
        command_view(r.command) == spec_invocation_command(strs(args@)),
        r.dry_run == has_arg(strs(args@), "--dry-run"@),
        r.json == has_arg(strs(args@), "--json"@),
        r.stdin == has_arg(strs(args@), "--stdin"@),
        r.auto_indent == has_arg(strs(args@), "--auto-indent"@),
        r.force_indent == has_arg(strs(args@), "--force-indent"@),
        opt_str(r.context_hash) == spec_context_value(strs(args@)),
{
    let ghost a = strs(args@);
    let dry_run = has_arg_exec(args, "--dry-run");
    let json = has_arg_exec(args, "--json");
    let stdin = has_arg_exec(args, "--stdin");
    let auto_indent = has_arg_exec(args, "--auto-indent");
    let force_indent = has_arg_exec(args, "--force-indent");
    let ctx = first_pos_exec(args, "--context");
    let n = args.len();
    let context_hash = match ctx {
        Some(p) => if p + 1 < n {
            Some(copy_str(args[p + 1].as_str()))
        } else {
            None
        },
        None => None,
    };
    let command = if args.len() == 0 || same_text(args[0].as_str(), "-h") || same_text(
        args[0].as_str(),
        "--help",
    ) {
        Command::Help
    } else if same_text(args[0].as_str(), "-v") || same_text(args[0].as_str(), "--version") {
        Command::Version
    } else {
        let k = kept_args_exec(args, ctx);
        command_of(&k, stdin)
    };
    Invocation { command, dry_run, json, stdin, auto_indent, force_indent, context_hash }
}

/// The view of an optional string.
pub open spec fn opt_str(o: Option<String>) -> Option<Seq<char>> {
    match o {
        Some(s) => Some(s@),
        None => None,
    }
}

/// Whether argument `i` is `lit`.
fn arg_is(k: &Vec<String>, i: usize, lit: &str) -> (b: bool)
    requires
        i < k@.len(),
    ensures
        b == (strs(k@)[i as int] == lit@),
{
    same_text(k[i].as_str(), lit)
}

/// The command of the kept arguments.
fn command_of(k: &Vec<String>, stdin: bool) -> (r: Command)
    ensures
        command_view(r) == spec_command(strs(k@), stdin),
{
    let ghost v = strs(k@);
    let n = k.len();
    if n == 1 && arg_is(k, 0, "decode") && stdin {
        Command::DecodeStdin
    } else if n == 3 && arg_is(k, 0, "decode") && arg_is(k, 1, "--file") {
        Command::DecodeFile(copy_str(k[2].as_str()))
    } else if n == 2 && arg_is(k, 0, "decode") {
        Command::Decode(copy_str(k[1].as_str()))
    } else if n == 1 && arg_is(k, 0, "encode") && stdin {
        Command::EncodeStdin
    } else if n == 3 && arg_is(k, 0, "encode") && arg_is(k, 1, "--file") {
        Command::EncodeFile(copy_str(k[2].as_str()))
    } else if n == 2 && arg_is(k, 0, "encode") {
        Command::Encode(copy_str(k[1].as_str()))
    } else if n == 4 && arg_is(k, 0, "context") {
        match parse_range(k[2].as_str(), k[3].as_str()) {
            Ok((s, e)) => Command::Context { file: copy_str(k[1].as_str()), start: s, end: e },
            Err(m) => Command::Fail(m),
        }
    } else if n == 2 && arg_is(k, 1, "--undo") {
        Command::Undo(copy_str(k[0].as_str()))
    } else if n == 2 && arg_is(k, 1, "--manifest") && stdin {
        Command::ManifestStdin(copy_str(k[0].as_str()))
    } else if n == 3 && arg_is(k, 1, "--manifest") {
        Command::Manifest { file: copy_str(k[0].as_str()), manifest: copy_str(k[2].as_str()) }
    } else if n == 4 && arg_is(k, 3, "--delete") {
        if stdin {
            Command::Fail(copy_str("cannot use --stdin with --delete"))
        } else {
            match parse_range(k[1].as_str(), k[2].as_str()) {
                Ok((s, e)) => Command::Splice { file: copy_str(k[0].as_str()), start: s, end: e, content: String::new() },
                Err(m) => Command::Fail(m),
            }
        }
    } else if n == 3 && stdin {
        Command::SpliceStdin { file: copy_str(k[0].as_str()), start: copy_str(k[1].as_str()), end: copy_str(k[2].as_str()) }
    } else if n == 4 {
        match parse_range(k[1].as_str(), k[2].as_str()) {
            Ok((s, e)) => match hex_decode(k[3].as_str()) {
                Ok(c) => Command::Splice { file: copy_str(k[0].as_str()), start: s, end: e, content: c },
                Err(m) => {
                    let mut f = copy_str("hex decode: ");
                    push_str(&mut f, m.as_str());
                    Command::Fail(f)
                },
            },
            Err(m) => Command::Fail(m),
        }
    } else {
        Command::BadArgs
    }
}

// ---------------------------------------------------------------------------
// Plain output
// ---------------------------------------------------------------------------

/// The view of an optional text argument.
pub open spec fn opt_text(o: Option<&str>) -> Option<Seq<char>> {
    match o {
        Some(s) => Some(s@),
        None => None,
    }
}

/// The text, or `?` when there is none.
pub open spec fn or_question(o: Option<Seq<char>>) -> Seq<char> {
    match o {
        Some(s) => s,
        None => "?"@,
    }
}

/// The text, or empty when there is none.
pub open spec fn or_empty(o: Option<Seq<char>>) -> Seq<char> {
    match o {
        Some(s) => s,
        None => Seq::<char>::empty(),
    }
}

/// The lines a dry run prints: the header, the counts, then, when present,
/// the indentation warning (each of its lines indented), the note that the
/// content was re-indented, the preview, and the hint.
pub open spec fn dry_run_lines(
    file: Option<Seq<char>>,
    removed: nat,
    inserted: nat,
    warning: Option<Seq<char>>,
    fixed: Option<bool>,
    preview: Option<Seq<Seq<char>>>,
    hint: Option<Seq<char>>,
) -> Seq<Seq<char>> {
    seq![
        "=== DRY RUN PREVIEW ==="@,
        "File: "@ + or_question(file),
        "Lines to remove: "@ + decimal(removed),
        "Lines to insert: "@ + decimal(inserted),
    ] + match warning {
        Some(w) => seq!["\n\u{26a0}\u{fe0f}  INDENTATION WARNING:"@] + str_lines(w).map_values(
            |l: Seq<char>| "   "@ + l,
        ),
        None => seq![],
    } + if fixed == Some(true) {
        seq!["\n\u{2713} Auto-indent applied"@]
    } else {
        seq![]
    } + match preview {
        Some(p) => seq!["\n--- Diff Preview ---"@] + p,
        None => seq![],
    } + match hint {
        Some(h) => seq!["\nHint: "@ + h],
        None => seq![],
    }
}

/// What the plain output of a result is: the lines printed for a success
/// (by its status), or the error line for anything else.
pub open spec fn spec_plain_output(
    status: Seq<char>,
    file: Option<Seq<char>>,
    message: Option<Seq<char>>,
    removed: nat,
    inserted: nat,
    backup: Option<Seq<char>>,
    warning: Option<Seq<char>>,
    fixed: Option<bool>,
    preview: Option<Seq<Seq<char>>>,
    hint: Option<Seq<char>>,
) -> Result<Seq<Seq<char>>, Seq<char>> {
    if status == "ok"@ {
        match message {
            Some(m) => Ok(seq![m]),
            None => Ok(
                seq![
                    "ok: "@ + or_question(file) + " -"@ + decimal(removed) + " +"@ + decimal(inserted),
                ],
            ),
        }
    } else if status == "restored"@ {
        Ok(seq!["restored: "@ + or_question(backup)])
    } else if status == "encoded"@ {
        Ok(seq![or_empty(message)])
    } else if status == "dry_run"@ {
        Ok(dry_run_lines(file, removed, inserted, warning, fixed, preview, hint))
    } else {
        Err(
            "error: "@ + match message {
                Some(m) => m,
                None => "unknown"@,
            },
        )
    }
}

/// The view of a plain output.
pub open spec fn plain_view(r: Result<Vec<String>, String>) -> Result<Seq<Seq<char>>, Seq<char>> {
    match r {
        Ok(v) => Ok(strs(v@)),
        Err(e) => Err(e@),
    }
}

/// Appends a line holding `a` followed by `b`.
fn push_line(out: &mut Vec<String>, a: &str, b: &str)
    ensures
        strs(final(out)@) == strs(old(out)@).push(a@ + b@),
{
    let mut l = copy_str(a);
    push_str(&mut l, b);
    let ghost before = strs(out@);
    out.push(l);
    assert(strs(out@) =~= before.push(a@ + b@));
}

/// Appends a line holding `a` followed by the decimal numeral of `n`.
fn push_count_line(out: &mut Vec<String>, a: &str, n: usize)
    ensures
        strs(final(out)@) == strs(old(out)@).push(a@ + decimal(n as nat)),
{
    let mut l = copy_str(a);
    push_decimal(&mut l, n as u64);
    let ghost before = strs(out@);
    out.push(l);
    assert(strs(out@) =~= before.push(a@ + decimal(n as nat)));
}

/// The lines a dry run prints.
fn dry_run_output(
    file: Option<&str>,
    lines_removed: usize,
    lines_inserted: usize,
    indent_warning: Option<&str>,
    indent_fixed: Option<bool>,
    diff_preview: Option<&Vec<String>>,
    ai_hint: Option<&str>,
) -> (r: Vec<String>)
    ensures
        strs(r@) == dry_run_lines(
            opt_text(file),
            lines_removed as nat,
            lines_inserted as nat,
            opt_text(indent_warning),
            indent_fixed,
            match diff_preview {
                Some(p) => Some(strs(p@)),
                None => None,
            },
            opt_text(ai_hint),
        ),
{
    let mut out: Vec<String> = Vec::new();
    push_line(&mut out, "=== DRY RUN PREVIEW ===", "");
    push_line(&mut out, "File: ", match file {
        Some(f) => f,
        None => "?",
    });
    push_count_line(&mut out, "Lines to remove: ", lines_removed);
    push_count_line(&mut out, "Lines to insert: ", lines_inserted);
    let ghost head = strs(out@);
    proof {
        assert(("=== DRY RUN PREVIEW ==="@ + ""@) =~= "=== DRY RUN PREVIEW ==="@) by {
            reveal_strlit("");
        }
        assert(head =~= seq![
            "=== DRY RUN PREVIEW ==="@,
            "File: "@ + or_question(opt_text(file)),
            "Lines to remove: "@ + decimal(lines_removed as nat),
            "Lines to insert: "@ + decimal(lines_inserted as nat),
        ]);
    }
    match indent_warning {
        Some(w) => {
            push_line(&mut out, "\n\u{26a0}\u{fe0f}  INDENTATION WARNING:", "");
            let ls = str_lines_exec(w);
            let ghost mid = strs(out@);
            let ghost wl = str_lines(w@);
            let mut k: usize = 0;
            while k < ls.len()
                invariant
                    k <= ls@.len(),
                    ls@.map_values(|l: Vec<char>| l@) == wl,
                    strs(out@) == mid + wl.take(k as int).map_values(|l: Seq<char>| "   "@ + l),
                decreases ls.len() - k,
            {
                let t = string_of(&ls[k]);
                let ghost before = strs(out@);
                push_line(&mut out, "   ", t.as_str());
                proof {
                    assert(ls@[k as int]@ == wl[k as int]);
                    assert(wl.take(k + 1).map_values(|l: Seq<char>| "   "@ + l) =~= wl.take(k as int).map_values(
                        |l: Seq<char>| "   "@ + l,
                    ).push("   "@ + wl[k as int]));
                }
                k = k + 1;
            }
            proof {
                assert(wl.take(ls@.len() as int) == wl);
                assert(("\n\u{26a0}\u{fe0f}  INDENTATION WARNING:"@ + ""@) =~= "\n\u{26a0}\u{fe0f}  INDENTATION WARNING:"@) by {
                    reveal_strlit("");
                }
            }
        },
        None => {},
    }
    let ghost after_warning = strs(out@);
    if indent_fixed == Some(true) {
        push_line(&mut out, "\n\u{2713} Auto-indent applied", "");
        proof {
            assert(("\n\u{2713} Auto-indent applied"@ + ""@) =~= "\n\u{2713} Auto-indent applied"@) by {
                reveal_strlit("");
            }
        }
    }
    let ghost after_fixed = strs(out@);
    match diff_preview {
        Some(p) => {
            push_line(&mut out, "\n--- Diff Preview ---", "");
            proof {
                assert(("\n--- Diff Preview ---"@ + ""@) =~= "\n--- Diff Preview ---"@) by {
                    reveal_strlit("");
                }
            }
            let ghost mid = strs(out@);
            let mut k: usize = 0;
            while k < p.len()
                invariant
                    k <= p@.len(),
                    strs(out@) == mid + strs(p@).take(k as int),
                decreases p.len() - k,
            {
                let ghost before = strs(out@);
                out.push(copy_str(p[k].as_str()));
                proof {
                    assert(strs(out@) =~= before.push(p@[k as int]@));
                    assert(strs(p@).take(k + 1) =~= strs(p@).take(k as int).push(p@[k as int]@));
                }
                k = k + 1;
            }
            proof {
                assert(strs(p@).take(p@.len() as int) == strs(p@));
            }
        },
        None => {},
    }
    let ghost after_preview = strs(out@);
    match ai_hint {
        Some(h) => {
            push_line(&mut out, "\nHint: ", h);
        },
        None => {},
    }
    proof {
        let w = opt_text(indent_warning);
        let wpart: Seq<Seq<char>> = match w {
            Some(ww) => seq!["\n\u{26a0}\u{fe0f}  INDENTATION WARNING:"@] + str_lines(ww).map_values(
                |l: Seq<char>| "   "@ + l,
            ),
            None => seq![],
        };
        assert(after_warning =~= head + wpart);
        let fpart: Seq<Seq<char>> = if indent_fixed == Some(true) {
            seq!["\n\u{2713} Auto-indent applied"@]
        } else {
            seq![]
        };
        assert(after_fixed =~= head + wpart + fpart);
        let pv = match diff_preview {
            Some(p) => Some(strs(p@)),
            None => None,
        };
        let ppart: Seq<Seq<char>> = match pv {
            Some(pp) => seq!["\n--- Diff Preview ---"@] + pp,
            None => seq![],
        };
        assert(after_preview =~= head + wpart + fpart + ppart);
        let hpart: Seq<Seq<char>> = match opt_text(ai_hint) {
            Some(hh) => seq!["\nHint: "@ + hh],
            None => seq![],
        };
        assert(strs(out@) =~= head + wpart + fpart + ppart + hpart);
    }
    out
}

/// The plain (non-JSON) output of a result: the lines printed on success,
/// chosen by the status, or the error line, which makes the program fail.
pub fn plain_output(
    status: &str,
    file: Option<&str>,
    message: Option<&str>,
    lines_removed: usize,
    lines_inserted: usize,
    backup: Option<&str>,
    indent_warning: Option<&str>,
    indent_fixed: Option<bool>,
    diff_preview: Option<&Vec<String>>,
    ai_hint: Option<&str>,
) -> (r: Result<Vec<String>, String>)
    ensures
        plain_view(r) == spec_plain_output(
            status@,
            opt_text(file),
            opt_text(message),
            lines_removed as nat,
            lines_inserted as nat,
            opt_text(backup),
            opt_text(indent_warning),
            indent_fixed,
            match diff_preview {
                Some(p) => Some(strs(p@)),
                None => None,
            },
            opt_text(ai_hint),
        ),
{
    let mut out: Vec<String> = Vec::new();
    if same_text(status, "ok") {
        match message {
            Some(m) => {
                push_line(&mut out, m, "");
                proof {
                    assert((m@ + ""@) =~= m@) by {
                        reveal_strlit("");
                    }
                    assert(strs(out@) =~= seq![m@]);
                }
            },
            None => {
                let mut l = copy_str("ok: ");
                push_str(&mut l, match file {
                    Some(f) => f,
                    None => "?",
                });
                push_str(&mut l, " -");
                push_decimal(&mut l, lines_removed as u64);
                push_str(&mut l, " +");
                push_decimal(&mut l, lines_inserted as u64);
                out.push(l);
                assert(strs(out@) =~= seq![
                    "ok: "@ + or_question(opt_text(file)) + " -"@ + decimal(lines_removed as nat) + " +"@
                        + decimal(lines_inserted as nat),
                ]);
            },
        }
        Ok(out)
    } else if same_text(status, "restored") {
        push_line(&mut out, "restored: ", match backup {
            Some(b) => b,
            None => "?",
        });
        assert(strs(out@) =~= seq!["restored: "@ + or_question(opt_text(backup))]);
        Ok(out)
    } else if same_text(status, "encoded") {
        let m = match message {
            Some(m) => m,
            None => "",
        };
        proof {
            reveal_strlit("");
            assert(m@ == or_empty(opt_text(message)));
            assert((m@ + ""@) =~= m@);
        }
        push_line(&mut out, m, "");
        assert(strs(out@) =~= seq![or_empty(opt_text(message))]);
        Ok(out)
    } else if same_text(status, "dry_run") {
        Ok(dry_run_output(file, lines_removed, lines_inserted, indent_warning, indent_fixed, diff_preview, ai_hint))
    } else {
        let mut e = copy_str("error: ");
        push_str(&mut e, match message {
            Some(m) => m,
            None => "unknown",
        });
        Err(e)
    }
}


// ---------------------------------------------------------------------------
// Flags stand anywhere
// ---------------------------------------------------------------------------

/// A position of the argument list once the argument at `i` is removed.
pub open spec fn shifted_pos(pos: Option<int>, i: int) -> Option<int> {
    match pos {
        Some(p) => if p > i {
            Some(p - 1)
        } else {
            Some(p)
        },
        None => None,
    }
}

proof fn lemma_first_pos_facts(args: Seq<Seq<char>>, x: Seq<char>)
    ensures
        first_pos(args, x) matches Some(p) ==> 0 <= p < args.len() && args[p] == x,
    decreases args.len(),
{
    if args.len() > 0 {
        lemma_first_pos_facts(args.drop_last(), x);
    }
}

proof fn lemma_first_pos_remove(args: Seq<Seq<char>>, x: Seq<char>, i: int)
    requires
        0 <= i < args.len(),
        args[i] != x,
    ensures
        first_pos(args.remove(i), x) == shifted_pos(first_pos(args, x), i),
    decreases args.len(),
{
    let r = args.remove(i);
    lemma_first_pos_facts(args.drop_last(), x);
    if i == args.len() - 1 {
        assert(r =~= args.drop_last());
    } else {
        assert(r.drop_last() =~= args.drop_last().remove(i));
        assert(r.last() == args.last());
        lemma_first_pos_remove(args.drop_last(), x, i);
    }
}

proof fn lemma_kept_far(a: Seq<Seq<char>>, p: int)
    requires
        p >= a.len(),
    ensures
        kept_args(a, Some(p)) == kept_args(a, None),
    decreases a.len(),
{
    if a.len() > 0 {
        lemma_kept_far(a.drop_last(), p);
    }
}

proof fn lemma_kept_remove(args: Seq<Seq<char>>, ctx: Option<int>, i: int)
    requires
        0 <= i < args.len(),
        is_flag(args[i]),
        ctx matches Some(p) ==> p >= 0 && i != p && i != p + 1,
    ensures
        kept_args(args.remove(i), shifted_pos(ctx, i)) == kept_args(args, ctx),
    decreases args.len(),
{
    let r = args.remove(i);
    let n = args.len();
    if i == n - 1 {
        assert(r =~= args.drop_last());
        match ctx {
            Some(p) => {
                if p > i {
                    lemma_kept_far(args.drop_last(), p);
                    lemma_kept_far(args.drop_last(), p - 1);
                }
            },
            None => {},
        }
    } else {
        assert(r.drop_last() =~= args.drop_last().remove(i));
        assert(r.last() == args.last());
        assert(r[n - 2] == args[n - 1]);
        lemma_kept_remove(args.drop_last(), ctx, i);
    }
}

proof fn lemma_has_arg_remove(args: Seq<Seq<char>>, x: Seq<char>, i: int)
    requires
        0 <= i < args.len(),
        args[i] != x,
    ensures
        has_arg(args.remove(i), x) == has_arg(args, x),
{
    let r = args.remove(i);
    if has_arg(args, x) {
        let j = choose|j: int| 0 <= j < args.len() && args[j] == x;
        if j < i {
            assert(r[j] == x);
        } else {
            assert(r[j - 1] == x);
        }
    }
    if has_arg(r, x) {
        let j = choose|j: int| 0 <= j < r.len() && r[j] == x;
        if j < i {
            assert(args[j] == x);
        } else {
            assert(args[j + 1] == x);
        }
    }
}

/// The flags `--dry-run`, `--json`, `--auto-indent`, `--force-indent` and
/// `--stdin` may stand anywhere after the first argument: taking one out
/// leaves the command unchanged (for `--stdin`, when another `--stdin`
/// remains), unless it stands where the value of `--context` goes.
pub proof fn law_flags_stand_anywhere(args: Seq<Seq<char>>, i: int)
    requires
        1 <= i < args.len(),
        args[i] == "--dry-run"@ || args[i] == "--json"@ || args[i] == "--auto-indent"@ || args[i]
            == "--force-indent"@ || (args[i] == "--stdin"@ && has_arg(args.remove(i), "--stdin"@)),
        first_pos(args, "--context"@) matches Some(p) ==> i != p + 1,
    ensures
        spec_invocation_command(args.remove(i)) == spec_invocation_command(args),
{
    reveal_strlit("--dry-run");
    reveal_strlit("--json");
    reveal_strlit("--auto-indent");
    reveal_strlit("--force-indent");
    reveal_strlit("--stdin");
    reveal_strlit("--context");
    let r = args.remove(i);
    let ctx = first_pos(args, "--context"@);
    assert(args[i] != "--context"@) by {
        if args[i] == "--context"@ {
            assert(args[i].len() == "--context"@.len());
            assert(args[i][2] == "--context"@[2]);
        }
    }
    assert(is_flag(args[i]));
    lemma_first_pos_facts(args, "--context"@);
    lemma_first_pos_remove(args, "--context"@, i);
    lemma_kept_remove(args, ctx, i);
    if args[i] != "--stdin"@ {
        lemma_has_arg_remove(args, "--stdin"@, i);
    } else {
        assert(args[i] == "--stdin"@);
        assert("--stdin"@.len() == 7);
        assert("--dry-run"@.len() == 9 && "--json"@.len() == 6 && "--auto-indent"@.len() == 13
            && "--force-indent"@.len() == 14);
        assert(has_arg(args, "--stdin"@));
        assert(has_arg(r, "--stdin"@));
    }
    assert(r[0] == args[0]);
    assert(first_pos(r, "--context"@) == shifted_pos(ctx, i));
    assert(kept_args(r, first_pos(r, "--context"@)) == kept_args(args, ctx));
    assert(has_arg(r, "--stdin"@) == has_arg(args, "--stdin"@));
    assert(r.len() > 0);
}

} // verus!
