//! Paths as text. The rules by which the platform splits and joins paths
//! are those of `std::path`; this module names their results and builds the
//! library's own path rules from them.

use crate::text::{chars_of, has_prefix, opt_str, opt_text, starts_with, string_of};
use vstd::prelude::*;

verus! {

/// `base` with `part` adjoined, by the path rules of the platform. Stands
/// for the result of `Path::join`.
pub uninterp spec fn path_join(base: Seq<char>, part: Seq<char>) -> Seq<char>;

/// The final component of `path`, if it has one. Stands for the result of
/// `Path::file_name`.
pub uninterp spec fn path_file_name(path: Seq<char>) -> Option<Seq<char>>;

/// The extension of the final component of `path`, if it has one. Stands
/// for the result of `Path::extension`.
pub uninterp spec fn path_extension(path: Seq<char>) -> Option<Seq<char>>;

/// `path` with the extension of its final component replaced by `ext`. Stands
/// for the result of `PathBuf::set_extension`.
pub uninterp spec fn path_with_extension(path: Seq<char>, ext: Seq<char>) -> Seq<char>;

/// Whether a text holds a path separator of some platform.
pub open spec fn has_separator(s: Seq<char>) -> bool {
    s.contains('/') || s.contains('\\')
}

/// Not verified: `PathBuf::set_extension`, between texts. Claims only that
/// the result is a function of the path and the extension. Left out are
/// extensions that hold a path separator: on those the call does not
/// return.
#[verifier::external_body]
pub(crate) fn with_extension(path: &str, ext: &str) -> (r: String)
    requires
        !has_separator(ext@),
    ensures
        r@ == path_with_extension(path@, ext@),
{
    let mut changed = std::path::PathBuf::from(path);
    changed.set_extension(ext);
    changed.to_string_lossy().into_owned()
}

/// Not verified: `Path::join`, between texts. Claims only that the result
/// is a function of the two texts.
#[verifier::external_body]
pub(crate) fn join_path(base: &str, part: &str) -> (r: String)
    ensures
        r@ == path_join(base@, part@),
{
    std::path::Path::new(base).join(part).to_string_lossy().into_owned()
}

/// Not verified: `Path::file_name`, between texts. Claims only that the
/// result is a function of the path.
#[verifier::external_body]
pub(crate) fn file_name_of(path: &str) -> (r: Option<String>)
    ensures
        opt_text(r) == path_file_name(path@),
{
    let name = std::path::Path::new(path).file_name()?;
    Some(name.to_string_lossy().into_owned())
}

/// Not verified: `Path::extension`, between texts. Claims only that the
/// result is a function of the path.
#[verifier::external_body]
pub(crate) fn extension_of(path: &str) -> (r: Option<String>)
    ensures
        opt_text(r) == path_extension(path@),
{
    let extension = std::path::Path::new(path).extension()?;
    Some(extension.to_string_lossy().into_owned())
}

/// Not verified: `dirs::home_dir`, as text. The home directory depends on
/// the environment of the process, so nothing is claimed of the result.
#[verifier::external_body]
pub(crate) fn home_directory() -> (r: Option<String>)
{
    let home = dirs::home_dir()?;
    Some(home.to_string_lossy().into_owned())
}

/// `path` with a leading `~/` replaced by the home directory. A path
/// without that prefix, or any path when no home directory is known, stays
/// as it is.
pub open spec fn expanded(path: Seq<char>, home: Option<Seq<char>>) -> Seq<char> {
    if starts_with(path, seq!['~', '/']) {
        match home {
            Some(h) => path_join(h, path.skip(2)),
            None => path,
        }
    } else {
        path
    }
}

/// Expands a leading `~/` of `path` against the given home directory.
pub fn expand_path_from(path: &str, home: Option<&str>) -> (r: String)
    ensures
        r@ == expanded(path@, opt_str(home)),
{
    let chars = chars_of(path);
    proof {
        reveal_strlit("~/");
        assert("~/"@ == seq!['~', '/']);
    }
    if has_prefix(&chars, "~/") {
        match home {
            Some(h) => {
                let rest = string_of(&chars, 2, chars.len());
                assert(chars@.subrange(2, chars.len() as int) == path@.skip(2));
                return join_path(h, rest.as_str());
            },
            None => {},
        }
    }
    path.to_owned()
}

/// Expands a leading `~/` of `path` against the home directory of the
/// current user.
pub fn expand_path(path: &str) -> (r: String)
    ensures
        exists|home: Option<Seq<char>>| r@ == expanded(path@, home),
        !starts_with(path@, seq!['~', '/']) ==> r@ == path@,
{
    let home = home_directory();
    let r = match &home {
        Some(h) => expand_path_from(path, Some(h.as_str())),
        None => expand_path_from(path, None),
    };
    assert(r@ == expanded(path@, opt_text(home)));
    r
}

} // verus!
