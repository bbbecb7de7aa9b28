//! Paths as text, with the path operations of `camino`.
use vstd::prelude::*;

verus! {

/// What `camino::Utf8Path::join` gives for `base` and `path` under the path
/// rules of the target the library is built for.
pub uninterp spec fn joined_path(base: Seq<char>, path: Seq<char>) -> Seq<char>;

/// What `camino::Utf8Path::parent` gives for `path`.
pub uninterp spec fn parent_path(path: Seq<char>) -> Option<Seq<char>>;

/// Whether `camino::Utf8Path::is_absolute` holds of `path`.
pub uninterp spec fn absolute_path(path: Seq<char>) -> bool;

/// `camino::Utf8Path::join`: `path` adjoined to `base`. The contract names the
/// result; it states nothing of the separator or of absolute paths, which
/// depend on the target.
#[verifier::external_body]
pub fn join_path(base: &str, path: &str) -> (r: String)
    ensures
        r@ == joined_path(base@, path@),
{
    camino::Utf8Path::new(base).join(path).into_string()
}

/// `camino::Utf8Path::parent`: `path` without its last component, or `None`
/// when it has none. The contract names the result.
#[verifier::external_body]
pub fn parent(path: &str) -> (r: Option<String>)
    ensures
        match r {
            Some(p) => parent_path(path@) == Some(p@),
            None => parent_path(path@) is None,
        },
{
    match camino::Utf8Path::new(path).parent() {
        Some(p) => Some(p.as_str().to_owned()),
        None => None,
    }
}

/// `camino::Utf8Path::is_absolute`. The contract names the result.
#[verifier::external_body]
pub fn is_absolute(path: &str) -> (r: bool)
    ensures
        r == absolute_path(path@),
{
    camino::Utf8Path::new(path).is_absolute()
}

} // verus!
