//! Path arithmetic on UTF-8 paths, delegated to `std::path` so that components,
//! separators and extensions behave exactly as the standard library defines them.
use vstd::prelude::*;

verus! {

/// What `Path::parent` returns for this path.
pub uninterp spec fn std_path_parent(path: Seq<char>) -> Option<Seq<char>>;

/// What `Path::file_name` returns for this path.
pub uninterp spec fn std_path_file_name(path: Seq<char>) -> Option<Seq<char>>;

/// What `Path::file_stem` returns for this path.
pub uninterp spec fn std_path_file_stem(path: Seq<char>) -> Option<Seq<char>>;

/// What `Path::extension` returns for this path.
pub uninterp spec fn std_path_extension(path: Seq<char>) -> Option<Seq<char>>;

/// What `Path::join` returns for these two paths.
pub uninterp spec fn std_path_join(base: Seq<char>, child: Seq<char>) -> Seq<char>;

/// The path `PathBuf::set_extension` leaves behind.
pub uninterp spec fn std_path_with_extension(path: Seq<char>, extension: Seq<char>) -> Seq<char>;

/// Whether `Path::eq` (a comparison of components) holds.
pub uninterp spec fn std_path_eq(a: Seq<char>, b: Seq<char>) -> bool;

/// `Path::parent`: the path without its final component. The contract only
/// names the result; std documents `None` for a root or an empty path.
#[verifier::external_body]
pub(crate) fn parent(path: &str) -> (r: Option<String>)
    ensures
        r.deep_view() == std_path_parent(path@),
{
    match std::path::Path::new(path).parent() {
        Some(parent) => Some(parent.to_string_lossy().into_owned()),
        None => None,
    }
}

/// `Path::file_name`: the final component, unless the path ends in `..`.
#[verifier::external_body]
pub(crate) fn file_name(path: &str) -> (r: Option<String>)
    ensures
        r.deep_view() == std_path_file_name(path@),
{
    match std::path::Path::new(path).file_name() {
        Some(name) => Some(name.to_string_lossy().into_owned()),
        None => None,
    }
}

/// `Path::file_stem`: the file name without its final extension.
#[verifier::external_body]
pub(crate) fn file_stem(path: &str) -> (r: Option<String>)
    ensures
        r.deep_view() == std_path_file_stem(path@),
{
    match std::path::Path::new(path).file_stem() {
        Some(stem) => Some(stem.to_string_lossy().into_owned()),
        None => None,
    }
}

/// `Path::extension`: the text after the final dot of the file name.
#[verifier::external_body]
pub(crate) fn extension(path: &str) -> (r: Option<String>)
    ensures
        r.deep_view() == std_path_extension(path@),
{
    match std::path::Path::new(path).extension() {
        Some(extension) => Some(extension.to_string_lossy().into_owned()),
        None => None,
    }
}

/// `Path::join`: `child` appended to `base` with one separator; an absolute
/// `child` replaces `base`.
#[verifier::external_body]
pub(crate) fn join(base: &str, child: &str) -> (r: String)
    ensures
        r@ == std_path_join(base@, child@),
{
    std::path::Path::new(base).join(child).to_string_lossy().into_owned()
}

/// `PathBuf::set_extension`: the file name's extension replaced by `extension`.
/// std panics when the new extension holds a path separator, so it may not.
#[verifier::external_body]
pub(crate) fn with_extension(path: &str, extension: &str) -> (r: String)
    requires
        !extension@.contains('/'),
    ensures
        r@ == std_path_with_extension(path@, extension@),
{
    let mut buffer = std::path::PathBuf::from(path);
    buffer.set_extension(extension);
    buffer.to_string_lossy().into_owned()
}

/// `Path::eq`: equal components. The same text always names the same path.
#[verifier::external_body]
pub(crate) fn same_path(a: &str, b: &str) -> (r: bool)
    ensures
        r == std_path_eq(a@, b@),
        a@ == b@ ==> r,
{
    std::path::Path::new(a) == std::path::Path::new(b)
}

} // verus!
