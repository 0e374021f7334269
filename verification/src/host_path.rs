//! Paths as `std::path::Path` reads them: components, parent, and the part
//! of a path under a base directory.

use vstd::prelude::*;

use crate::text::strings_view;

verus! {

/// The components of a path, as `std::path::Path::components` splits it.
pub uninterp spec fn path_components(path: Seq<char>) -> Seq<Seq<char>>;

/// The parent of a path, as `std::path::Path::parent` computes it.
pub uninterp spec fn path_parent(path: Seq<char>) -> Option<Seq<char>>;

/// The part of `path` under `base`, as `std::path::Path::strip_prefix`
/// computes it (comparing whole components); `None` when `base` is not a
/// prefix of `path`.
pub uninterp spec fn path_strip_prefix(path: Seq<char>, base: Seq<char>) -> Option<Seq<char>>;

/// `path` joined onto `base`, as `std::path::Path::join` computes it (an
/// absolute `path` replaces `base`).
pub uninterp spec fn path_join(base: Seq<char>, path: Seq<char>) -> Seq<char>;

/// The components of `path` (`Path::components`), each as a string.
///
/// Trusted: the result is named `path_components` of the path.
#[verifier::external_body]
pub(crate) fn components_of(path: &str) -> (r: Vec<String>)
    ensures
        strings_view(r@) == path_components(path@),
{
    std::path::Path::new(path).components().map(|c| c.as_os_str().to_string_lossy().to_string()).collect()
}

/// The parent of `path` (`Path::parent`).
///
/// Trusted: the result is named `path_parent` of the path.
#[verifier::external_body]
pub(crate) fn parent_of(path: &str) -> (r: Option<String>)
    ensures
        r is Some <==> path_parent(path@) is Some,
        r matches Some(p) ==> path_parent(path@) == Some(p@),
{
    std::path::Path::new(path).parent().map(|p| p.to_string_lossy().to_string())
}

/// The part of `path` under `base` (`Path::strip_prefix`).
///
/// Trusted: the result is named `path_strip_prefix` of the two paths.
#[verifier::external_body]
pub(crate) fn strip_path_prefix(path: &str, base: &str) -> (r: Option<String>)
    ensures
        r is Some <==> path_strip_prefix(path@, base@) is Some,
        r matches Some(p) ==> path_strip_prefix(path@, base@) == Some(p@),
{
    std::path::Path::new(path).strip_prefix(base).ok().map(|p| p.to_string_lossy().to_string())
}

/// `path` joined onto `base` (`Path::join`).
///
/// Trusted: the result is named `path_join` of the two paths.
#[verifier::external_body]
pub(crate) fn join_paths(base: &str, path: &str) -> (r: String)
    ensures
        r@ == path_join(base@, path@),
{
    std::path::Path::new(base).join(path).display().to_string()
}

} // verus!
