//! Paths as text. Joining, parents, extensions and component comparison are
//! `std::path` operations; the state of the disk is read through probes whose
//! answers the rest of the crate treats as given.
use crate::text::owned;
use vstd::prelude::*;

verus! {

/// The path that `Path::join` forms from `base` and `path`.
pub uninterp spec fn joined_path(base: Seq<char>, path: Seq<char>) -> Seq<char>;

/// The parent that `Path::parent` gives for `path`, if any.
pub uninterp spec fn parent_path(path: Seq<char>) -> Option<Seq<char>>;

/// The extension that `Path::extension` gives for `path`, if any.
pub uninterp spec fn path_extension(path: Seq<char>) -> Option<Seq<char>>;

/// Whether `Path::new(a) == Path::new(b)`: the same components.
pub uninterp spec fn same_path(a: Seq<char>, b: Seq<char>) -> bool;

/// Whether `Path::new(path).starts_with(base)`: `base`'s components are a
/// prefix of `path`'s.
pub uninterp spec fn path_has_prefix(path: Seq<char>, base: Seq<char>) -> bool;

/// What `Path::strip_prefix` leaves of `path` once `base` is removed.
pub uninterp spec fn stripped_path(path: Seq<char>, base: Seq<char>) -> Seq<char>;

/// On Unix a path is absolute exactly when it starts at the root `/`.
pub open spec fn is_absolute_path(p: Seq<char>) -> bool {
    p.len() > 0 && p[0] == '/'
}

/// Whether `p` starts at the root (`Path::is_absolute` on Unix).
pub fn is_absolute(p: &str) -> (r: bool)
    ensures
        r == is_absolute_path(p@),
{
    let v = crate::text::chars_of(p);
    v.len() > 0 && v[0] == '/'
}

/// `Path::new(base).join(path)`, as text.
#[verifier::external_body]
pub(crate) fn join_path(base: &str, path: &str) -> (r: String)
    ensures
        r@ == joined_path(base@, path@),
{
    std::path::Path::new(base).join(path).to_string_lossy().to_string()
}

/// `Path::new(path).parent()`, as text. The parent is the path without its
/// final component, so it is shorter than the path.
#[verifier::external_body]
pub(crate) fn path_parent(path: &str) -> (r: Option<String>)
    ensures
        match r {
            Some(s) => parent_path(path@) == Some(s@) && s@.len() < path@.len(),
            None => parent_path(path@) is None,
        },
{
    std::path::Path::new(path).parent().map(|p| p.to_string_lossy().to_string())
}

/// `Path::new(path).extension()`, as text.
#[verifier::external_body]
pub(crate) fn extension_of(path: &str) -> (r: Option<String>)
    ensures
        match r {
            Some(s) => path_extension(path@) == Some(s@),
            None => path_extension(path@) is None,
        },
{
    std::path::Path::new(path).extension().map(|e| e.to_string_lossy().to_string())
}

/// `Path::new(a) == Path::new(b)`.
#[verifier::external_body]
pub(crate) fn paths_equal(a: &str, b: &str) -> (r: bool)
    ensures
        r == same_path(a@, b@),
{
    std::path::Path::new(a) == std::path::Path::new(b)
}

/// `Path::new(path).starts_with(base)`.
#[verifier::external_body]
pub(crate) fn path_starts_with(path: &str, base: &str) -> (r: bool)
    ensures
        r == path_has_prefix(path@, base@),
{
    std::path::Path::new(path).starts_with(base)
}

/// `Path::new(path).strip_prefix(base)`, as text; `None` exactly when `base`
/// is not a prefix of `path`.
#[verifier::external_body]
pub(crate) fn path_strip_prefix(path: &str, base: &str) -> (r: Option<String>)
    ensures
        match r {
            Some(s) => path_has_prefix(path@, base@) && s@ == stripped_path(path@, base@),
            None => !path_has_prefix(path@, base@),
        },
{
    std::path::Path::new(path).strip_prefix(base).ok().map(|p| p.to_string_lossy().to_string())
}

/// Whether something exists at `path` now. The answer depends on the disk.
#[verifier::external_body]
pub(crate) fn path_exists(path: &str) -> bool {
    std::path::Path::new(path).exists()
}

/// Whether a regular file exists at `path` now. The answer depends on the
/// disk.
#[verifier::external_body]
pub(crate) fn path_is_file(path: &str) -> bool {
    std::path::Path::new(path).is_file()
}

/// Whether a directory exists at `path` now. The answer depends on the disk.
#[verifier::external_body]
pub(crate) fn path_is_dir(path: &str) -> bool {
    std::path::Path::new(path).is_dir()
}

/// `path` made absolute against `cwd`: kept when already absolute, otherwise
/// joined onto `cwd`.
pub fn absolutize_path(path: &str, cwd: &str) -> (r: String)
    ensures
        r@ == if is_absolute_path(path@) {
            path@
        } else {
            joined_path(cwd@, path@)
        },
{
    if is_absolute(path) {
        owned(path)
    } else {
        join_path(cwd, path)
    }
}

/// `path` shown relative to `workspace_root` when it lies under it, and as
/// given otherwise.
pub fn display_path(workspace_root: &str, path: &str) -> (r: String)
    ensures
        r@ == if path_has_prefix(path@, workspace_root@) {
            stripped_path(path@, workspace_root@)
        } else {
            path@
        },
{
    match path_strip_prefix(path, workspace_root) {
        Some(rel) => rel,
        None => owned(path),
    }
}

} // verus!
