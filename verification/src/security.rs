//! Path security validation: rejects paths with embedded NUL bytes or parent
//! references (`..`) and, when a base directory is configured, paths that
//! resolve outside it.
//!
//! Looking at the filesystem (does the path exist, what is its canonical
//! form, what is the base's canonical form) is left to the caller, who hands
//! the answers in as a `PathLookup`; everything decided from those answers is
//! here.
use vstd::prelude::*;
use crate::lines::strs;
use crate::text::{chars_of, copy_str, push_str, same_text};

verus! {

// ---------------------------------------------------------------------------
// std::path, by name
// ---------------------------------------------------------------------------

/// The components of a path as `std::path::Path::components` splits it, each
/// as its string (`"/"` for the root, `"."`, `".."`, or a name).
pub uninterp spec fn parts_of(p: Seq<char>) -> Seq<Seq<char>>;

/// The path `std::path::PathBuf` builds by pushing these components in turn.
pub uninterp spec fn path_of_parts(parts: Seq<Seq<char>>) -> Seq<char>;

/// `std::path::Path::join`.
pub uninterp spec fn joined(base: Seq<char>, p: Seq<char>) -> Seq<char>;

/// `std::path::Path::starts_with`: the components of `base` are the first
/// components of `p` (only whole components match).
pub open spec fn path_starts_with(p: Seq<char>, base: Seq<char>) -> bool {
    parts_of(base).len() <= parts_of(p).len() && parts_of(p).take(parts_of(base).len() as int) == parts_of(
        base,
    )
}

/// The `Debug` text of a path (quoted and escaped).
pub uninterp spec fn path_debug_text(p: Seq<char>) -> Seq<char>;

/// Calls `Path::components`, taking each component's string; the contract
/// names the result `parts_of(p)`.
#[verifier::external_body]
fn path_parts(p: &str) -> (r: Vec<String>)
    ensures
        strs(r@) == parts_of(p@),
{
    std::path::Path::new(p).components().map(|c| c.as_os_str().to_string_lossy().into_owned()).collect()
}

/// Calls `PathBuf::from_iter` on the components; the contract names the
/// result `path_of_parts(parts)`.
#[verifier::external_body]
fn path_from_parts(parts: &Vec<String>) -> (r: String)
    ensures
        r@ == path_of_parts(strs(parts@)),
{
    parts.iter().collect::<std::path::PathBuf>().to_string_lossy().into_owned()
}

/// Calls `Path::join`; the contract names the result `joined(base, p)`
/// and states what `PathBuf::push` documents: an absolute path (on Unix,
/// one that starts with the root `/`) replaces the base. How a relative
/// path is attached (the separator between them) is left to the name.
#[verifier::external_body]
pub(crate) fn join_path(base: &str, p: &str) -> (r: String)
    ensures
        r@ == joined(base@, p@),
        p@.len() > 0 && p@[0] == '/' ==> r@ == p@,
{
    std::path::Path::new(base).join(p).to_string_lossy().into_owned()
}

/// Calls `Path::starts_with`; the contract states its documented result:
/// the components of `base` are a prefix of those of `p`.
#[verifier::external_body]
fn has_path_prefix(p: &str, base: &str) -> (b: bool)
    ensures
        b == path_starts_with(p@, base@),
{
    std::path::Path::new(p).starts_with(base)
}

/// Formats a path with `Debug`; the contract names the text
/// `path_debug_text(p)`.
#[verifier::external_body]
pub(crate) fn path_debug(p: &str) -> (r: String)
    ensures
        r@ == path_debug_text(p@),
{
    format!("{:?}", std::path::Path::new(p))
}

// ---------------------------------------------------------------------------
// Policy and errors
// ---------------------------------------------------------------------------

/// Security policy configuration for path validation.
///
/// `SecurityPolicy::default()` rejects parent references and sets no base
/// directory.
#[derive(Debug, Clone)]
pub struct SecurityPolicy {
    /// Base directory that all paths must be within; `None` enforces no
    /// containment.
    pub base_dir: Option<String>,
    /// Whether to reject paths containing parent references (`..`).
    pub reject_parent_refs: bool,
}

impl Default for SecurityPolicy {
    fn default() -> (r: Self)
        ensures
            r.base_dir is None,
            r.reject_parent_refs,
    {
        SecurityPolicy { base_dir: None, reject_parent_refs: true }
    }
}

/// Path validation error types.
#[derive(Debug, Clone, PartialEq)]
pub enum PathSecurityError {
    /// Path contains a parent directory reference (`..`) and policy rejects it.
    ParentReferenceNotAllowed { component: String },
    /// Path resolves outside the allowed base directory.
    EscapesBaseDirectory { path: String, base: String },
    /// Filesystem error during resolution, or a NUL byte in the path.
    IoError(String),
}

/// A `PathSecurityError` with its strings taken by their characters.
pub enum PathErrorView {
    Parent(Seq<char>),
    Escapes(Seq<char>, Seq<char>),
    Io(Seq<char>),
}

impl View for PathSecurityError {
    type V = PathErrorView;

    open spec fn view(&self) -> PathErrorView {
        match self {
            PathSecurityError::ParentReferenceNotAllowed { component } => PathErrorView::Parent(
                component@,
            ),
            PathSecurityError::EscapesBaseDirectory { path, base } => PathErrorView::Escapes(
                path@,
                base@,
            ),
            PathSecurityError::IoError(e) => PathErrorView::Io(e@),
        }
    }
}

/// The text of an error.
pub open spec fn error_text(e: PathErrorView) -> Seq<char> {
    match e {
        PathErrorView::Parent(c) => "Parent reference not allowed: "@ + c,
        PathErrorView::Escapes(p, b) => "Path escapes base directory: "@ + path_debug_text(p)
            + " (base: "@ + path_debug_text(b) + ")"@,
        PathErrorView::Io(e) => "IO error: "@ + e,
    }
}

impl PathSecurityError {
    /// The error's text, as it is shown to the user.
    pub fn message(&self) -> (r: String)
        ensures
            r@ == error_text(self@),
    {
        match self {
            PathSecurityError::ParentReferenceNotAllowed { component } => {
                let mut m = copy_str("Parent reference not allowed: ");
                push_str(&mut m, component.as_str());
                m
            },
            PathSecurityError::EscapesBaseDirectory { path, base } => {
                let mut m = copy_str("Path escapes base directory: ");
                let p = path_debug(path.as_str());
                push_str(&mut m, p.as_str());
                push_str(&mut m, " (base: ");
                let b = path_debug(base.as_str());
                push_str(&mut m, b.as_str());
                push_str(&mut m, ")");
                m
            },
            PathSecurityError::IoError(e) => {
                let mut m = copy_str("IO error: ");
                push_str(&mut m, e.as_str());
                m
            },
        }
    }
}

// ---------------------------------------------------------------------------
// Cleaning
// ---------------------------------------------------------------------------

/// A named component: not the root, `.` or `..`.
pub open spec fn is_normal_part(c: Seq<char>) -> bool {
    c != "/"@ && c != "."@ && c != ".."@
}

/// Components with `.` removed and each `..` cancelling a preceding name; a
/// `..` is kept only at the very start, and dropped after the root or after
/// another kept `..`.
pub open spec fn clean_parts(ps: Seq<Seq<char>>) -> Seq<Seq<char>>
    decreases ps.len(),
{
    if ps.len() == 0 {
        seq![]
    } else {
        let acc = clean_parts(ps.drop_last());
        let c = ps.last();
        if c == "."@ {
            acc
        } else if c == ".."@ {
            if acc.len() > 0 && is_normal_part(acc.last()) {
                acc.drop_last()
            } else if acc.len() == 0 {
                acc.push(c)
            } else {
                acc
            }
        } else {
            acc.push(c)
        }
    }
}

/// Cleans a list of components (see `clean_parts`).
fn clean_component_list(ps: &Vec<String>) -> (r: Vec<String>)
    ensures
        strs(r@) == clean_parts(strs(ps@)),
{
    let ghost v = strs(ps@);
    let mut acc: Vec<String> = Vec::new();
    let mut i: usize = 0;
    assert(v.take(0) == Seq::<Seq<char>>::empty());
    while i < ps.len()
        invariant
            i <= ps@.len(),
            v == strs(ps@),
            strs(acc@) == clean_parts(v.take(i as int)),
        decreases ps.len() - i,
    {
        let c = &ps[i];
        proof {
            assert(v.take(i + 1).drop_last() == v.take(i as int));
            assert(v.take(i + 1).last() == c@);
        }
        if same_text(c.as_str(), ".") {
        } else if same_text(c.as_str(), "..") {
            let n = acc.len();
            let last_normal = n > 0 && !same_text(acc[n - 1].as_str(), "/") && !same_text(
                acc[n - 1].as_str(),
                ".",
            ) && !same_text(acc[n - 1].as_str(), "..");
            if last_normal {
                let ghost before = acc@;
                acc.pop();
                proof {
                    assert(strs(acc@) =~= strs(before).drop_last());
                }
            } else if n == 0 {
                acc.push(c.clone());
                proof {
                    assert(strs(acc@) =~= seq![c@]);
                }
            }
        } else {
            let ghost before = acc@;
            let d = copy_str(c.as_str());
            acc.push(d);
            proof {
                assert(strs(acc@) =~= strs(before).push(c@));
            }
        }
        i = i + 1;
    }
    assert(v.take(ps@.len() as int) == v);
    acc
}

/// The cleaned form of a path: its components with `.` removed and each
/// `..` cancelling the name before it, rebuilt into a path.
pub open spec fn spec_clean_path(p: Seq<char>) -> Seq<char> {
    path_of_parts(clean_parts(parts_of(p)))
}

/// Clean a path by removing redundant components (`.` and `..`).
pub fn clean_path(path: &str) -> (r: String)
    ensures
        r@ == spec_clean_path(path@),
{
    let parts = path_parts(path);
    let cleaned = clean_component_list(&parts);
    path_from_parts(&cleaned)
}

// ---------------------------------------------------------------------------
// Validation
// ---------------------------------------------------------------------------

/// What the filesystem said about a path and the policy's base directory.
#[derive(Debug)]
pub struct PathLookup {
    /// `None` when the path does not exist; otherwise what canonicalizing it
    /// gave: the canonical path, or the error's text.
    pub target: Option<Result<String, String>>,
    /// What canonicalizing the base directory gave (consulted only when the
    /// policy sets one): the canonical path, or the error's text.
    pub base: Result<String, String>,
    /// For a path that does not exist: how many trailing components of the
    /// resolved path (the path, joined onto the base when one is set) do not
    /// exist, so that dropping them leaves its nearest existing ancestor.
    pub missing: usize,
    /// For a path that does not exist: what canonicalizing that nearest
    /// existing ancestor (`.` when it is empty) gave: the canonical path, or
    /// the error's text.
    pub ancestor: Result<String, String>,
}

/// Where a path that does not exist resolves to: its nearest existing
/// ancestor's canonical form `ancestor`, with the `missing` trailing
/// components of `resolved` appended, cleaned.
pub open spec fn resolve_missing(resolved: Seq<char>, missing: nat, ancestor: Seq<char>) -> Seq<char> {
    let ps = parts_of(resolved);
    let k = if missing <= ps.len() {
        missing
    } else {
        ps.len()
    };
    spec_clean_path(joined(ancestor, path_of_parts(ps.skip(ps.len() - k))))
}

/// The view of a `Result<String, String>`.
pub open spec fn str_result(r: Result<String, String>) -> Result<Seq<char>, Seq<char>> {
    match r {
        Ok(s) => Ok(s@),
        Err(e) => Err(e@),
    }
}

/// The path has a NUL character.
pub open spec fn has_nul(p: Seq<char>) -> bool {
    exists|i: int| 0 <= i < p.len() && p[i] == '\0'
}

/// The path has a `..` component.
pub open spec fn has_parent_ref(p: Seq<char>) -> bool {
    exists|i: int| 0 <= i < parts_of(p).len() && parts_of(p)[i] == ".."@
}

/// The checks made before the filesystem is consulted: no NUL byte, and no
/// `..` component when the policy rejects them.
pub open spec fn spec_check_path(p: Seq<char>, reject_parent_refs: bool) -> Result<(), PathErrorView> {
    if has_nul(p) {
        Err(PathErrorView::Io("path contains a null byte"@))
    } else if reject_parent_refs && has_parent_ref(p) {
        Err(PathErrorView::Parent(".."@))
    } else {
        Ok(())
    }
}

/// The outcome of `validate_path`: after the checks, the canonical path when
/// it exists (or the error canonicalizing it); else the path (joined onto the
/// base when one is set) resolved from the canonical form of its nearest
/// existing ancestor (or the error getting it); then, with a base, the
/// base's canonical form (or the error getting it) and the containment
/// check.
pub open spec fn spec_validate_path(
    p: Seq<char>,
    base_dir: Option<Seq<char>>,
    reject_parent_refs: bool,
    target: Option<Result<Seq<char>, Seq<char>>>,
    base: Result<Seq<char>, Seq<char>>,
    missing: nat,
    ancestor: Result<Seq<char>, Seq<char>>,
) -> Result<Seq<char>, PathErrorView> {
    match spec_check_path(p, reject_parent_refs) {
        Err(e) => Err(e),
        Ok(_) => {
            let resolved = match base_dir {
                Some(b) => joined(b, p),
                None => p,
            };
            let candidate: Result<Seq<char>, PathErrorView> = match target {
                Some(Ok(c)) => Ok(c),
                Some(Err(t)) => Err(PathErrorView::Io(t)),
                None => match ancestor {
                    Err(t) => Err(PathErrorView::Io(t)),
                    Ok(a) => Ok(resolve_missing(resolved, missing, a)),
                },
            };
            match candidate {
                Err(e) => Err(e),
                Ok(c) => match base_dir {
                    None => Ok(c),
                    Some(_) => match base {
                        Err(t) => Err(PathErrorView::Io("Failed to canonicalize base directory: "@ + t)),
                        Ok(cb) => if path_starts_with(c, cb) {
                            Ok(c)
                        } else {
                            Err(PathErrorView::Escapes(c, cb))
                        },
                    },
                },
            }
        },
    }
}

/// The view of a validation outcome.
pub open spec fn validated_view(r: Result<String, PathSecurityError>) -> Result<Seq<char>, PathErrorView> {
    match r {
        Ok(s) => Ok(s@),
        Err(e) => Err(e@),
    }
}

/// The checks made before any filesystem access: a NUL byte gives an
/// `IoError`; a `..` component gives `ParentReferenceNotAllowed` when the
/// policy rejects parent references.
pub fn check_path(path: &str, policy: &SecurityPolicy) -> (r: Result<(), PathSecurityError>)
    ensures
        match r {
            Ok(_) => spec_check_path(path@, policy.reject_parent_refs) is Ok,
            Err(e) => spec_check_path(path@, policy.reject_parent_refs) == Err::<(), PathErrorView>(
                e@,
            ),
        },
{
    let v = chars_of(path);
    let mut i: usize = 0;
    while i < v.len()
        invariant
            v@ == path@,
            i <= v@.len(),
            forall|j: int| 0 <= j < i ==> v@[j] != '\0',
        decreases v.len() - i,
    {
        if v[i] == '\0' {
            assert(has_nul(path@));
            return Err(PathSecurityError::IoError(copy_str("path contains a null byte")));
        }
        i = i + 1;
    }
    assert(!has_nul(path@));
    if policy.reject_parent_refs {
        let parts = path_parts(path);
        let mut k: usize = 0;
        while k < parts.len()
            invariant
                k <= parts@.len(),
                strs(parts@) == parts_of(path@),
                !has_nul(path@),
                policy.reject_parent_refs,
                forall|j: int| 0 <= j < k ==> parts_of(path@)[j] != ".."@,
            decreases parts.len() - k,
        {
            if same_text(parts[k].as_str(), "..") {
                assert(parts_of(path@)[k as int] == ".."@);
                assert(has_parent_ref(path@));
                assert(spec_check_path(path@, policy.reject_parent_refs) == Err::<(), PathErrorView>(PathErrorView::Parent(".."@)));
                return Err(PathSecurityError::ParentReferenceNotAllowed { component: copy_str("..") });
            }
            k = k + 1;
        }
    }
    Ok(())
}

/// Resolves a path that does not exist from the canonical form of its
/// nearest existing ancestor.
fn resolve_missing_exec(resolved: &str, missing: usize, ancestor: &str) -> (r: String)
    ensures
        r@ == resolve_missing(resolved@, missing as nat, ancestor@),
{
    let ps = path_parts(resolved);
    let n = ps.len();
    let k = if missing <= n {
        missing
    } else {
        n
    };
    let ghost pv = strs(ps@);
    let mut rest: Vec<String> = Vec::new();
    let mut i = n - k;
    while i < n
        invariant
            k <= n,
            n - k <= i <= n,
            n == ps@.len(),
            pv == strs(ps@),
            pv.len() == n,
            strs(rest@) == pv.subrange(n - k, i as int),
        decreases n - i,
    {
        let ghost before = strs(rest@);
        rest.push(copy_str(ps[i].as_str()));
        proof {
            assert(strs(rest@) =~= before.push(ps@[i as int]@));
            assert(pv[i as int] == ps@[i as int]@);
            assert(pv.subrange(n - k, i + 1) =~= pv.subrange(n - k, i as int).push(pv[i as int]));
        }
        i = i + 1;
    }
    assert(pv.subrange(n - k, n as int) =~= pv.skip(n - k));
    let tail = path_from_parts(&rest);
    let j = join_path(ancestor, tail.as_str());
    clean_path(j.as_str())
}

/// Validates and sanitizes a path according to the security policy, from
/// what the filesystem said about it (`lookup`).
pub fn validate_path(path: &str, policy: &SecurityPolicy, lookup: &PathLookup) -> (r: Result<
    String,
    PathSecurityError,
>)
    ensures
        validated_view(r) == spec_validate_path(
            path@,
            match policy.base_dir {
                Some(b) => Some(b@),
                None => None,
            },
            policy.reject_parent_refs,
            match lookup.target {
                Some(t) => Some(str_result(t)),
                None => None,
            },
            str_result(lookup.base),
            lookup.missing as nat,
            str_result(lookup.ancestor),
        ),
{
    match check_path(path, policy) {
        Err(e) => return Err(e),
        Ok(_) => {},
    }
    let candidate = match &lookup.target {
        Some(Ok(c)) => copy_str(c.as_str()),
        Some(Err(t)) => return Err(PathSecurityError::IoError(copy_str(t.as_str()))),
        None => {
            let resolved = match &policy.base_dir {
                Some(b) => join_path(b.as_str(), path),
                None => copy_str(path),
            };
            match &lookup.ancestor {
                Err(t) => return Err(PathSecurityError::IoError(copy_str(t.as_str()))),
                Ok(a) => resolve_missing_exec(resolved.as_str(), lookup.missing, a.as_str()),
            }
        },
    };
    match &policy.base_dir {
        None => Ok(candidate),
        Some(_) => match &lookup.base {
            Err(t) => {
                let mut m = copy_str("Failed to canonicalize base directory: ");
                push_str(&mut m, t.as_str());
                Err(PathSecurityError::IoError(m))
            },
            Ok(cb) => {
                if has_path_prefix(candidate.as_str(), cb.as_str()) {
                    Ok(candidate)
                } else {
                    Err(
                        PathSecurityError::EscapesBaseDirectory {
                            path: candidate,
                            base: copy_str(cb.as_str()),
                        },
                    )
                }
            },
        },
    }
}

/// Normalize a file path with the default policy (parent references
/// rejected, no base directory); errors are given as their text.
pub fn normalize_path(path: &str, lookup: &PathLookup) -> (r: Result<String, String>)
    ensures
        match (r, spec_validate_path(path@, None, true, match lookup.target {
            Some(t) => Some(str_result(t)),
            None => None,
        }, str_result(lookup.base), lookup.missing as nat, str_result(lookup.ancestor))) {
            (Ok(a), Ok(b)) => a@ == b,
            (Err(a), Err(b)) => a@ == error_text(b),
            _ => false,
        },
{
    let policy = SecurityPolicy::default();
    match validate_path(path, &policy, lookup) {
        Ok(p) => Ok(p),
        Err(e) => Err(e.message()),
    }
}

/// Secure version of `normalize_path`: parent references rejected and, when
/// `base_dir` is given, the path must resolve inside it.
pub fn normalize_path_secure(path: &str, base_dir: Option<&str>, lookup: &PathLookup) -> (r: Result<
    String,
    String,
>)
    ensures
        match (r, spec_validate_path(path@, match base_dir {
            Some(b) => Some(b@),
            None => None,
        }, true, match lookup.target {
            Some(t) => Some(str_result(t)),
            None => None,
        }, str_result(lookup.base), lookup.missing as nat, str_result(lookup.ancestor))) {
            (Ok(a), Ok(b)) => a@ == b,
            (Err(a), Err(b)) => a@ == error_text(b),
            _ => false,
        },
{
    let policy = SecurityPolicy {
        base_dir: match base_dir {
            Some(b) => Some(copy_str(b)),
            None => None,
        },
        reject_parent_refs: true,
    };
    match validate_path(path, &policy, lookup) {
        Ok(p) => Ok(p),
        Err(e) => Err(e.message()),
    }
}

// ---------------------------------------------------------------------------
// Laws
// ---------------------------------------------------------------------------

/// A path that validates has no NUL byte, has no `..` component when the
/// policy rejects them, and, with a base directory, lies under the base's
/// canonical form.
pub proof fn law_validated_path_is_safe(
    p: Seq<char>,
    base_dir: Option<Seq<char>>,
    reject_parent_refs: bool,
    target: Option<Result<Seq<char>, Seq<char>>>,
    base: Result<Seq<char>, Seq<char>>,
    missing: nat,
    ancestor: Result<Seq<char>, Seq<char>>,
)
    requires
        spec_validate_path(p, base_dir, reject_parent_refs, target, base, missing, ancestor) is Ok,
    ensures
        !has_nul(p),
        reject_parent_refs ==> !has_parent_ref(p),
        base_dir is Some ==> (base matches Ok(cb) && path_starts_with(
            spec_validate_path(p, base_dir, reject_parent_refs, target, base, missing, ancestor)->Ok_0,
            cb,
        )),
{
}

/// Cleaning leaves no `.` component, and a `..` only as the first one.
pub proof fn law_clean_parts_shape(ps: Seq<Seq<char>>)
    ensures
        forall|i: int| 0 <= i < clean_parts(ps).len() ==> #[trigger] clean_parts(ps)[i] != "."@,
        forall|i: int| 0 < i < clean_parts(ps).len() ==> #[trigger] clean_parts(ps)[i] != ".."@,
    decreases ps.len(),
{
    if ps.len() > 0 {
        let acc = clean_parts(ps.drop_last());
        law_clean_parts_shape(ps.drop_last());
        let c = ps.last();
        let r = clean_parts(ps);
        if c == "."@ {
            assert(r == acc);
        } else if c == ".."@ {
            if acc.len() > 0 && is_normal_part(acc.last()) {
                assert(r == acc.drop_last());
                assert forall|i: int| 0 <= i < r.len() implies r[i] == acc[i] by {}
            } else if acc.len() == 0 {
                assert(r == acc.push(c));
                assert(r.len() == 1);
            } else {
                assert(r == acc);
            }
        } else {
            assert(r == acc.push(c));
            assert forall|i: int| 0 <= i < r.len() implies #[trigger] r[i] != "."@ && (i > 0 ==> r[i] != ".."@) by {
                if i < acc.len() {
                    assert(r[i] == acc[i]);
                } else {
                    assert(r[i] == c);
                }
            }
        }
    }
}

} // verus!
