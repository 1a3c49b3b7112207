//! File-system paths held as text. Joining a path and taking its extension
//! are done by `std::path`; the contracts name their results, whose values
//! differ between platforms (`\` separates components on Windows only).
use vstd::prelude::*;

verus! {

/// What `Path::join` gives for a base path and a relative part, as text.
pub uninterp spec fn path_join(base: Seq<char>, part: Seq<char>) -> Seq<char>;

/// What `Path::extension` gives for a path: the part of its file name after
/// the last `'.'`, if there is one.
pub uninterp spec fn path_extension(path: Seq<char>) -> Option<Seq<char>>;

/// Joins `part` onto `base`. Calls `Path::join` (text in, text out); the
/// contract names the result.
#[verifier::external_body]
pub(crate) fn join_path(base: &str, part: &str) -> (r: String)
    ensures
        r@ == path_join(base@, part@),
{
    std::path::Path::new(base).join(part).to_string_lossy().into_owned()
}

/// The extension of a path. Calls `Path::extension`; the contract names the
/// result.
#[verifier::external_body]
pub(crate) fn extension_of(path: &str) -> (r: Option<String>)
    ensures
        match r {
            Some(e) => path_extension(path@) == Some(e@),
            None => path_extension(path@) is None,
        },
{
    std::path::Path::new(path).extension().map(|e| e.to_string_lossy().into_owned())
}

/// What `Path::with_extension` gives for a path and an extension, as text.
pub uninterp spec fn path_with_extension(path: Seq<char>, ext: Seq<char>) -> Seq<char>;

/// The path with its extension replaced. Calls `Path::with_extension`
/// (text in, text out); the contract names the result. `PathBuf::set_extension`
/// panics when the extension holds a path separator, so the extension may
/// hold neither `/` nor `\\`.
#[verifier::external_body]
pub(crate) fn with_extension(path: &str, ext: &str) -> (r: String)
    requires
        forall|i: int| 0 <= i < ext@.len() ==> #[trigger] ext@[i] != '/' && ext@[i] != '\\',
    ensures
        r@ == path_with_extension(path@, ext@),
{
    std::path::Path::new(path).with_extension(ext).to_string_lossy().into_owned()
}

} // verus!
