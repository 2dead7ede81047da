//! Pattern matching and path tests, which the `regex` and `glob` crates and
//! `std::path` carry out. Nothing in this file is proved: each contract gives
//! the outcome of a call a name, so that the rest of the library can speak of
//! it.

use vstd::prelude::*;

verus! {

/// Whether `Regex::new` of the `regex` crate accepts `pattern`.
pub uninterp spec fn regex_compiles(pattern: Seq<char>) -> bool;

/// Whether the regular expression that `Regex::new` makes of `pattern` finds
/// a match anywhere in `text` (`Regex::is_match`).
pub uninterp spec fn regex_matches(pattern: Seq<char>, text: Seq<char>) -> bool;

/// Whether `Pattern::new` of the `glob` crate accepts `pattern`.
pub uninterp spec fn glob_compiles(pattern: Seq<char>) -> bool;

/// Whether the glob that `Pattern::new` makes of `pattern` matches the whole
/// of `text` under the default match options (`Pattern::matches`).
pub uninterp spec fn glob_matches(pattern: Seq<char>, text: Seq<char>) -> bool;

/// Whether `Path::starts_with` holds of `path` and `base`: the components of
/// `base` are the first components of `path`, by the path syntax of the
/// platform that the library is built for.
pub uninterp spec fn path_starts_with(path: Seq<char>, base: Seq<char>) -> bool;

/// What `Path::parent` gives for `path`: the path without its last component,
/// or nothing where the path is empty or ends in a root.
pub uninterp spec fn path_parent(path: Seq<char>) -> Option<Seq<char>>;

/// Calls `regex::Regex::new` on `pattern` and, where that succeeds,
/// `Regex::is_match` on `text`. Believed: the call yields a value exactly when
/// the pattern compiles, and the value is the outcome of the search; both
/// depend on the two texts alone.
#[verifier::external_body]
pub(crate) fn regex_try_match(pattern: &str, text: &str) -> (res: Option<bool>)
    ensures
        res.is_some() == regex_compiles(pattern@),
        res matches Some(found) ==> found == regex_matches(pattern@, text@),
{
    match regex::Regex::new(pattern) {
        Ok(re) => Some(re.is_match(text)),
        Err(_) => None,
    }
}

/// Calls `glob::Pattern::new` on `pattern` and, where that succeeds,
/// `Pattern::matches` on `text`. Believed: the call yields a value exactly
/// when the glob compiles, and the value is the outcome of the match; both
/// depend on the two texts alone.
#[verifier::external_body]
pub(crate) fn glob_try_match(pattern: &str, text: &str) -> (res: Option<bool>)
    ensures
        res.is_some() == glob_compiles(pattern@),
        res matches Some(found) ==> found == glob_matches(pattern@, text@),
{
    match glob::Pattern::new(pattern) {
        Ok(compiled) => Some(compiled.matches(text)),
        Err(_) => None,
    }
}

/// Calls `std::path::Path::starts_with`. Believed: the answer depends on the
/// two paths alone.
#[verifier::external_body]
pub(crate) fn path_is_under(path: &str, base: &str) -> (res: bool)
    ensures
        res == path_starts_with(path@, base@),
{
    std::path::Path::new(path).starts_with(base)
}

/// Calls `std::path::Path::parent`. Believed: the answer depends on the path
/// alone. The parent of a path written in UTF-8 is a part of it, so turning
/// it back into a string loses nothing.
#[verifier::external_body]
pub(crate) fn parent_of(path: &str) -> (res: Option<String>)
    ensures
        res.is_some() == path_parent(path@).is_some(),
        res matches Some(dir) ==> path_parent(path@) == Some(dir@),
{
    match std::path::Path::new(path).parent() {
        Some(dir) => Some(dir.to_string_lossy().into_owned()),
        None => None,
    }
}

} // verus!
