//! The decisions of path validation for the editing tools: whether a
//! resolved path lies inside the working directory (whole components, as
//! `Path::starts_with` compares), which directory to resolve for a new
//! file, and the outcome of each step once the file system has answered.

use vstd::prelude::*;
use crate::text::{chars_eq, chars_eq_chars, chars_of, push_str, split_chars, split_on, string_of, views};

verus! {

/// The components of a Unix path, as `Path::components` yields them: `/`
/// for a root, `.` for a leading `.` of a relative path, then every
/// non-empty segment other than `.`.
pub open spec fn components_of(p: Seq<char>) -> Seq<Seq<char>> {
    let segs = split_on(p, '/');
    let head: Seq<Seq<char>> = if p.len() > 0 && p[0] == '/' {
        seq!["/"@]
    } else if segs[0] == "."@ {
        seq!["."@]
    } else {
        seq![]
    };
    head + normal_parts(segs)
}

/// The non-empty segments other than `.`, in order.
pub open spec fn normal_parts(segs: Seq<Seq<char>>) -> Seq<Seq<char>>
    decreases segs.len(),
{
    if segs.len() == 0 {
        seq![]
    } else {
        let r = normal_parts(segs.drop_last());
        if segs.last().len() > 0 && segs.last() != "."@ {
            r.push(segs.last())
        } else {
            r
        }
    }
}

/// Does `path` start with `root`, component by component?
pub open spec fn path_starts_with_spec(path: Seq<char>, root: Seq<char>) -> bool {
    let pc = components_of(path);
    let rc = components_of(root);
    rc.len() <= pc.len() && pc.subrange(0, rc.len() as int) == rc
}

/// The components of a path.
fn components(p: &str) -> (r: Vec<Vec<char>>)
    ensures
        views(r@) == components_of(p@),
{
    let v = chars_of(p);
    let segs = split_chars(v.as_slice(), '/');
    let ghost sv = views(segs@);
    let mut out: Vec<Vec<char>> = Vec::new();
    assert(sv[0] == segs@[0]@);
    if v.len() > 0 && v[0] == '/' {
        out.push(chars_of("/"));
    } else if chars_eq(segs[0].as_slice(), ".") {
        out.push(chars_of("."));
    }
    let ghost head = views(out@);
    assert(head + normal_parts(sv.subrange(0, 0)) =~= head);
    let mut i: usize = 0;
    while i < segs.len()
        invariant
            i <= segs@.len(),
            sv == views(segs@),
            views(out@) == head + normal_parts(sv.subrange(0, i as int)),
        decreases segs@.len() - i,
    {
        let ghost cur = sv.subrange(0, i + 1);
        assert(cur.drop_last() =~= sv.subrange(0, i as int));
        assert(cur.last() == segs@[i as int]@);
        if segs[i].len() > 0 && !chars_eq(segs[i].as_slice(), ".") {
            let ghost before = views(out@);
            out.push(segs[i].clone());
            assert(views(out@) =~= before.push(segs@[i as int]@));
        }
        i = i + 1;
    }
    assert(sv.subrange(0, segs@.len() as int) =~= sv);
    out
}

/// Does `path` lie under `root`, comparing whole components (so `/a/bc`
/// does not lie under `/a/b`)?
pub fn path_starts_with(path: &str, root: &str) -> (r: bool)
    ensures
        r == path_starts_with_spec(path@, root@),
{
    let pc = components(path);
    let rc = components(root);
    let ghost pv = views(pc@);
    let ghost rv = views(rc@);
    if rc.len() > pc.len() {
        return false;
    }
    let mut i: usize = 0;
    while i < rc.len()
        invariant
            i <= rc@.len() <= pc@.len(),
            pv == views(pc@),
            rv == views(rc@),
            pv == components_of(path@),
            rv == components_of(root@),
            forall|k: int| 0 <= k < i ==> #[trigger] pv[k] == rv[k],
        decreases rc@.len() - i,
    {
        assert(pv[i as int] == pc@[i as int]@);
        assert(rv[i as int] == rc@[i as int]@);
        if !chars_eq_chars(pc[i].as_slice(), rc[i].as_slice()) {
            assert(pv.subrange(0, rv.len() as int)[i as int] != rv[i as int]);
            assert(pv.subrange(0, rv.len() as int) != rv);
            return false;
        }
        i = i + 1;
    }
    assert(pv.subrange(0, rv.len() as int) =~= rv);
    true
}

/// Why resolving a path failed, as far as the messages care.
#[derive(Clone, Copy, Debug, PartialEq, Eq, Structural)]
pub enum PathErrorKind {
    NotFound,
    PermissionDenied,
    Other,
}

/// The message of a failed resolution of `context`.
pub open spec fn path_error_text(kind: PathErrorKind, context: Seq<char>) -> Seq<char> {
    match kind {
        PathErrorKind::NotFound => "path not found: "@ + context,
        PathErrorKind::PermissionDenied => "permission denied: "@ + context,
        PathErrorKind::Other => "path is invalid: "@ + context,
    }
}

/// The message of a failed resolution of `context`.
pub fn path_error_message(kind: PathErrorKind, context: &str) -> (r: String)
    ensures
        r@ == path_error_text(kind, context@),
{
    let mut v: Vec<char> = Vec::new();
    match kind {
        PathErrorKind::NotFound => push_str(&mut v, "path not found: "),
        PathErrorKind::PermissionDenied => push_str(&mut v, "permission denied: "),
        PathErrorKind::Other => push_str(&mut v, "path is invalid: "),
    }
    push_str(&mut v, context);
    string_of(v.as_slice())
}

/// Every path lies under itself.
pub proof fn law_path_starts_with_itself(p: Seq<char>)
    ensures
        path_starts_with_spec(p, p),
{
    let pc = components_of(p);
    assert(pc.subrange(0, pc.len() as int) =~= pc);
}

// ---------------------------------------------------------------------------
// Paths as std::path reads them
// ---------------------------------------------------------------------------

/// The text of `Path::new(p).parent()` (`None` for a root or an empty path).
pub uninterp spec fn std_path_parent(p: Seq<char>) -> Option<Seq<char>>;

/// The text of `Path::new(p).file_name()` (`None` when the path ends in
/// `..`, is a root, or is empty).
pub uninterp spec fn std_path_file_name(p: Seq<char>) -> Option<Seq<char>>;

/// `Path::new(p).parent()`, as text.
///
/// Trusted (std): the result is `std_path_parent(p)`, a function of `p`
/// alone (the parent of a path read from a `str` is itself valid UTF-8).
#[verifier::external_body]
fn path_parent(p: &str) -> (r: Option<String>)
    ensures
        match r {
            Some(x) => std_path_parent(p@) == Some(x@),
            None => std_path_parent(p@) is None,
        },
{
    match std::path::Path::new(p).parent() {
        Some(q) => match q.to_str() {
            Some(t) => Some(t.to_owned()),
            None => None,
        },
        None => None,
    }
}

/// `Path::new(p).file_name()`, as text.
///
/// Trusted (std): the result is `std_path_file_name(p)`, a function of `p`
/// alone.
#[verifier::external_body]
fn path_file_name(p: &str) -> (r: Option<String>)
    ensures
        match r {
            Some(x) => std_path_file_name(p@) == Some(x@),
            None => std_path_file_name(p@) is None,
        },
{
    match std::path::Path::new(p).file_name() {
        Some(n) => match n.to_str() {
            Some(t) => Some(t.to_owned()),
            None => None,
        },
        None => None,
    }
}

/// `base` joined with `part` as `Path::join` does on Unix: an absolute
/// `part` replaces `base`; otherwise a separator goes in between unless
/// `base` is empty or already ends with one.
pub open spec fn path_join_text(base: Seq<char>, part: Seq<char>) -> Seq<char> {
    if part.len() > 0 && part[0] == '/' {
        part
    } else if base.len() == 0 || base.last() == '/' {
        base + part
    } else {
        base + seq!['/'] + part
    }
}

/// Joins two paths (see `path_join_text`).
pub fn path_join(base: &str, part: &str) -> (r: String)
    ensures
        r@ == path_join_text(base@, part@),
{
    let p = chars_of(part);
    if p.len() > 0 && p[0] == '/' {
        return string_of(p.as_slice());
    }
    let mut v = chars_of(base);
    if v.len() > 0 && v[v.len() - 1] != '/' {
        v.push('/');
    }
    let mut k: usize = 0;
    let ghost start = v@;
    while k < p.len()
        invariant
            k <= p@.len(),
            v@ == start + p@.subrange(0, k as int),
        decreases p@.len() - k,
    {
        v.push(p[k]);
        assert(v@ =~= start + p@.subrange(0, k + 1));
        k = k + 1;
    }
    assert(p@.subrange(0, p@.len() as int) =~= p@);
    string_of(v.as_slice())
}

// ---------------------------------------------------------------------------
// Resolving edit paths, step by step
// ---------------------------------------------------------------------------

/// The refusal of a path that lies outside the working directory.
pub open spec fn outside_text() -> Seq<char> {
    "path is outside the working directory"@
}

/// The refusal of a path without a file name.
pub open spec fn no_file_name_text() -> Seq<char> {
    "path must include a filename component"@
}

/// What to resolve for a file that may not exist yet: the directory to
/// canonicalize, the parent as written (for messages), and the file name.
#[derive(Clone, Debug)]
pub struct NewFileTarget {
    pub dir: String,
    pub parent_text: String,
    pub file_name: String,
}

/// The directory to canonicalize for a new file whose parent is `parent`:
/// inside the working directory `root` an empty or `.` parent is the root
/// itself; against an explicit working directory only an empty parent is.
pub open spec fn target_dir(parent: Seq<char>, base: Seq<char>, in_root: bool) -> Seq<char> {
    if parent.len() == 0 || (in_root && parent == "."@) {
        base
    } else {
        path_join_text(base, parent)
    }
}

/// The new-file target of `path` against `base`, or `None` when the path
/// has no file name.
pub open spec fn new_file_target_of(path: Seq<char>, base: Seq<char>, in_root: bool) -> Option<
    (Seq<char>, Seq<char>, Seq<char>),
> {
    match std_path_file_name(path) {
        None => None,
        Some(name) => {
            let parent = match std_path_parent(path) {
                Some(q) => q,
                None => seq![],
            };
            let text = match std_path_parent(path) {
                Some(q) => q,
                None => "(invalid utf-8)"@,
            };
            Some((target_dir(parent, base, in_root), text, name))
        },
    }
}

/// Splits a path for a file that may not exist yet into the directory to
/// canonicalize (against the working directory `base`; `in_root` when the
/// path must stay inside it), the parent as written, and the file name.
pub fn new_file_target(path: &str, base: &str, in_root: bool) -> (r: Result<NewFileTarget, String>)
    ensures
        match new_file_target_of(path@, base@, in_root) {
            None => r matches Err(m) && m@ == no_file_name_text(),
            Some((d, t, n)) => r matches Ok(x) && x.dir@ == d && x.parent_text@ == t
                && x.file_name@ == n,
        },
{
    let name = match path_file_name(path) {
        None => {
            return Err("path must include a filename component".to_owned());
        },
        Some(n) => n,
    };
    let parent = path_parent(path);
    let (parent_chars, text) = match &parent {
        Some(q) => (q.clone(), q.clone()),
        None => (String::new(), "(invalid utf-8)".to_owned()),
    };
    let pc = chars_of(parent_chars.as_str());
    let dir = if pc.len() == 0 || (in_root && chars_eq(pc.as_slice(), ".")) {
        base.to_owned()
    } else {
        path_join(base, parent_chars.as_str())
    };
    Ok(NewFileTarget { dir, parent_text: text, file_name: name })
}

/// The outcome of resolving an existing path inside the working directory
/// `root`, once canonicalizing it gave `canonical`.
pub open spec fn existing_path_outcome_of(root: Seq<char>, canonical: Result<Seq<char>, PathErrorKind>) -> Result<
    Seq<char>,
    Seq<char>,
> {
    match canonical {
        Err(PathErrorKind::NotFound) => Err("path not found"@),
        Err(PathErrorKind::PermissionDenied) => Err("permission denied"@),
        Err(PathErrorKind::Other) => Err(outside_text()),
        Ok(c) => if path_starts_with_spec(c, root) {
            Ok(c)
        } else {
            Err(outside_text())
        },
    }
}

/// The resolved path or message from the view of a canonicalization.
pub open spec fn canonical_view(c: Result<String, PathErrorKind>) -> Result<Seq<char>, PathErrorKind> {
    match c {
        Ok(s) => Ok(s@),
        Err(k) => Err(k),
    }
}

/// Decides an existing path inside the working directory `root`: the
/// canonical path when it lies inside, else the refusal.
pub fn existing_path_outcome(root: &str, canonical: Result<String, PathErrorKind>) -> (r: Result<
    String,
    String,
>)
    ensures
        match existing_path_outcome_of(root@, canonical_view(canonical)) {
            Ok(p) => r matches Ok(x) && x@ == p,
            Err(m) => r matches Err(x) && x@ == m,
        },
{
    match canonical {
        Err(PathErrorKind::NotFound) => Err("path not found".to_owned()),
        Err(PathErrorKind::PermissionDenied) => Err("permission denied".to_owned()),
        Err(PathErrorKind::Other) => Err("path is outside the working directory".to_owned()),
        Ok(c) => {
            if path_starts_with(c.as_str(), root) {
                Ok(c)
            } else {
                Err("path is outside the working directory".to_owned())
            }
        },
    }
}

/// The outcome for a new file inside `root`, once its directory was
/// canonicalized (`canonical_dir`) and found to be a directory or not.
pub open spec fn new_file_in_root_outcome_of(
    root: Seq<char>,
    canonical_dir: Result<Seq<char>, PathErrorKind>,
    dir_is_dir: bool,
    parent_text: Seq<char>,
    name: Seq<char>,
) -> Result<Seq<char>, Seq<char>> {
    match canonical_dir {
        Err(k) => Err(path_error_text(k, parent_text)),
        Ok(c) => if !path_starts_with_spec(c, root) {
            Err(outside_text())
        } else if !dir_is_dir {
            Err("parent path is not a directory"@)
        } else if !path_starts_with_spec(path_join_text(c, name), root) {
            Err(outside_text())
        } else {
            Ok(path_join_text(c, name))
        },
    }
}

/// Decides a new file inside the working directory `root`: its path under
/// the canonical parent, or why it is refused.
pub fn new_file_in_root_outcome(
    root: &str,
    canonical_dir: Result<String, PathErrorKind>,
    dir_is_dir: bool,
    target: &NewFileTarget,
) -> (r: Result<String, String>)
    ensures
        match new_file_in_root_outcome_of(
            root@,
            canonical_view(canonical_dir),
            dir_is_dir,
            target.parent_text@,
            target.file_name@,
        ) {
            Ok(p) => r matches Ok(x) && x@ == p,
            Err(m) => r matches Err(x) && x@ == m,
        },
{
    match canonical_dir {
        Err(k) => Err(path_error_message(k, target.parent_text.as_str())),
        Ok(c) => {
            if !path_starts_with(c.as_str(), root) {
                return Err("path is outside the working directory".to_owned());
            }
            if !dir_is_dir {
                return Err("parent path is not a directory".to_owned());
            }
            let resolved = path_join(c.as_str(), target.file_name.as_str());
            if !path_starts_with(resolved.as_str(), root) {
                return Err("path is outside the working directory".to_owned());
            }
            Ok(resolved)
        },
    }
}

/// The outcome for a new file against an explicit working directory (no
/// containment check), once its directory was canonicalized.
pub open spec fn new_file_relative_outcome_of(
    canonical_dir: Result<Seq<char>, PathErrorKind>,
    dir_is_dir: bool,
    parent_text: Seq<char>,
    name: Seq<char>,
) -> Result<Seq<char>, Seq<char>> {
    match canonical_dir {
        Err(PathErrorKind::NotFound) => Err("parent directory does not exist: "@ + parent_text),
        Err(PathErrorKind::PermissionDenied) => Err(
            "permission denied accessing parent directory: "@ + parent_text,
        ),
        Err(PathErrorKind::Other) => Err("parent directory is invalid: "@ + parent_text),
        Ok(c) => if !dir_is_dir {
            Err("parent path exists but is not a directory: "@ + parent_text)
        } else {
            Ok(path_join_text(c, name))
        },
    }
}

/// Decides a new file against an explicit working directory: its path
/// under the canonical parent, or why it is refused.
pub fn new_file_relative_outcome(
    canonical_dir: Result<String, PathErrorKind>,
    dir_is_dir: bool,
    target: &NewFileTarget,
) -> (r: Result<String, String>)
    ensures
        match new_file_relative_outcome_of(
            canonical_view(canonical_dir),
            dir_is_dir,
            target.parent_text@,
            target.file_name@,
        ) {
            Ok(p) => r matches Ok(x) && x@ == p,
            Err(m) => r matches Err(x) && x@ == m,
        },
{
    let mut v: Vec<char> = Vec::new();
    match canonical_dir {
        Err(PathErrorKind::NotFound) => {
            push_str(&mut v, "parent directory does not exist: ");
            push_str(&mut v, target.parent_text.as_str());
            Err(string_of(v.as_slice()))
        },
        Err(PathErrorKind::PermissionDenied) => {
            push_str(&mut v, "permission denied accessing parent directory: ");
            push_str(&mut v, target.parent_text.as_str());
            Err(string_of(v.as_slice()))
        },
        Err(PathErrorKind::Other) => {
            push_str(&mut v, "parent directory is invalid: ");
            push_str(&mut v, target.parent_text.as_str());
            Err(string_of(v.as_slice()))
        },
        Ok(c) => {
            if !dir_is_dir {
                push_str(&mut v, "parent path exists but is not a directory: ");
                push_str(&mut v, target.parent_text.as_str());
                return Err(string_of(v.as_slice()));
            }
            Ok(path_join(c.as_str(), target.file_name.as_str()))
        },
    }
}

/// The outcome of checking an explicit working directory, once it was
/// canonicalized and found to be a directory or not.
pub open spec fn edit_working_dir_outcome_of(canonical: Result<Seq<char>, PathErrorKind>, is_dir: bool) -> Result<
    Seq<char>,
    Seq<char>,
> {
    match canonical {
        Err(k) => Err(path_error_text(k, "working_dir"@)),
        Ok(c) => if is_dir {
            Ok(c)
        } else {
            Err("working_dir must be a directory"@)
        },
    }
}

/// Decides an explicit working directory of an editing tool.
pub fn edit_working_dir_outcome(canonical: Result<String, PathErrorKind>, is_dir: bool) -> (r: Result<
    String,
    String,
>)
    ensures
        match edit_working_dir_outcome_of(canonical_view(canonical), is_dir) {
            Ok(p) => r matches Ok(x) && x@ == p,
            Err(m) => r matches Err(x) && x@ == m,
        },
{
    match canonical {
        Err(k) => Err(path_error_message(k, "working_dir")),
        Ok(c) => {
            if is_dir {
                Ok(c)
            } else {
                Err("working_dir must be a directory".to_owned())
            }
        },
    }
}

/// A new file accepted inside the working directory lies inside it.
pub proof fn law_new_file_stays_in_root(
    root: Seq<char>,
    canonical_dir: Result<Seq<char>, PathErrorKind>,
    dir_is_dir: bool,
    parent_text: Seq<char>,
    name: Seq<char>,
)
    ensures
        new_file_in_root_outcome_of(root, canonical_dir, dir_is_dir, parent_text, name) matches Ok(
            p,
        ) ==> path_starts_with_spec(p, root),
{
}

} // verus!
