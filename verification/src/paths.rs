//! File-system path arithmetic delegated to `camino`: the parent of a
//! content-relative path, joining two paths, and a file's stem.
use vstd::prelude::*;

verus! {

/// What `camino::Utf8Path::parent` gives for a path: the path without its
/// final component, none when the path ends in a root or is empty.
pub uninterp spec fn camino_parent(path: Seq<char>) -> Option<Seq<char>>;

/// What `camino::Utf8Path::join` gives when `path` is adjoined to `base`.
pub uninterp spec fn camino_join(base: Seq<char>, path: Seq<char>) -> Seq<char>;

/// What `camino::Utf8Path::file_stem` gives for a path: its file name
/// without the final extension, none when there is no file name.
pub uninterp spec fn camino_file_stem(path: Seq<char>) -> Option<Seq<char>>;

/// Calls `camino::Utf8Path::parent` on `path`. Its result depends on the
/// path alone (the platform's separator rules are fixed when the crate is
/// built); the contract names it and states nothing more of it.
#[verifier::external_body]
pub fn path_parent(path: &str) -> (r: Option<String>)
    ensures
        match r {
            Some(p) => camino_parent(path@) == Some(p@),
            None => camino_parent(path@) is None,
        },
{
    camino::Utf8Path::new(path).parent().map(|p| p.as_str().to_string())
}

/// Calls `camino::Utf8Path::join`, adjoining `path` to `base` (a separator
/// is inserted when needed; an absolute `path` replaces `base`). The
/// contract names the result and states nothing more of it.
#[verifier::external_body]
pub fn path_join(base: &str, path: &str) -> (r: String)
    ensures
        r@ == camino_join(base@, path@),
{
    camino::Utf8Path::new(base).join(path).into_string()
}

/// Calls `camino::Utf8Path::file_stem` on `path`. The contract names the
/// result and states nothing more of it.
#[verifier::external_body]
pub fn path_file_stem(path: &str) -> (r: Option<String>)
    ensures
        match r {
            Some(s) => camino_file_stem(path@) == Some(s@),
            None => camino_file_stem(path@) is None,
        },
{
    camino::Utf8Path::new(path).file_stem().map(|s| s.to_string())
}

} // verus!
