//! Paths as text: the path operations of `std::path` that the library relies
//! on, the user's directories, and `~` expansion.
//!
//! A path is held as its UTF-8 text.  Equality, prefix tests, prefix
//! stripping and joining are those of `std::path::Path`; the library names
//! their results and reasons over the names.

use vstd::prelude::*;

verus! {

/// Whether `std::path::Path` considers the two paths equal.
pub uninterp spec fn path_eq(a: Seq<char>, b: Seq<char>) -> bool;

/// Whether `std::path::Path::starts_with` considers `base` a prefix of `path`.
pub uninterp spec fn path_starts_with(path: Seq<char>, base: Seq<char>) -> bool;

/// What `std::path::Path::strip_prefix` leaves of `path` after `base`, if anything.
pub uninterp spec fn path_strip_prefix(path: Seq<char>, base: Seq<char>) -> Option<Seq<char>>;

/// The text of `std::path::Path::join` of `base` and `tail`.
pub uninterp spec fn path_join(base: Seq<char>, tail: Seq<char>) -> Seq<char>;

/// Calls `Path::eq` on the two paths; the result is the named relation.
/// `Path` implements `Eq`, an equivalence: a path equals itself, and the
/// relation is symmetric (the second and third clauses).
#[verifier::external_body]
pub(crate) fn paths_equal(a: &str, b: &str) -> (r: bool)
    ensures
        r == path_eq(a@, b@),
        r == path_eq(b@, a@),
        a@ == b@ ==> r,
{
    std::path::Path::new(a) == std::path::Path::new(b)
}

/// Calls `Path::starts_with`, which compares whole components only; every
/// path is a prefix of itself (the second clause).
#[verifier::external_body]
pub(crate) fn path_has_prefix(path: &str, base: &str) -> (r: bool)
    ensures
        r == path_starts_with(path@, base@),
        path@ == base@ ==> r,
{
    std::path::Path::new(path).starts_with(base)
}

/// Calls `Path::strip_prefix`.  Its documentation states that it fails
/// exactly when `starts_with` is false; that is the second clause.
#[verifier::external_body]
pub(crate) fn strip_path_prefix(path: &str, base: &str) -> (r: Option<String>)
    ensures
        match r {
            Some(rest) => path_strip_prefix(path@, base@) == Some(rest@),
            None => path_strip_prefix(path@, base@) is None,
        },
        r is Some <==> path_starts_with(path@, base@),
{
    std::path::Path::new(path).strip_prefix(base).ok().map(|p| p.to_string_lossy().into_owned())
}

/// Calls `Path::join`; the text of the joined path is the named result.
#[verifier::external_body]
pub(crate) fn join_path(base: &str, tail: &str) -> (r: String)
    ensures
        r@ == path_join(base@, tail@),
{
    std::path::Path::new(base).join(tail).to_string_lossy().into_owned()
}

/// Calls `dirs::home_dir`.  The answer comes from the environment of the
/// process ($HOME or the password database), so nothing is stated of it;
/// a path that is not UTF-8 is converted lossily.
#[verifier::external_body]
pub(crate) fn home_dir() -> (r: Option<String>) {
    dirs::home_dir().map(|p| p.to_string_lossy().into_owned())
}

/// Calls `dirs::config_dir`.  The answer comes from the environment of the
/// process ($XDG_CONFIG_HOME or $HOME), so nothing is stated of it; a path
/// that is not UTF-8 is converted lossily.
#[verifier::external_body]
pub(crate) fn config_dir() -> (r: Option<String>) {
    dirs::config_dir().map(|p| p.to_string_lossy().into_owned())
}

/// The path with a leading `~` component replaced by the home directory,
/// when there is one; otherwise the path unchanged.
pub open spec fn expand_home(path: Seq<char>, home: Option<Seq<char>>) -> Seq<char> {
    match path_strip_prefix(path, "~"@) {
        Some(rest) => match home {
            Some(h) => path_join(h, rest),
            None => path,
        },
        None => path,
    }
}

/// Expands a leading `~` of `path` against the given home directory.
pub fn normalize_with_home(path: &str, home: Option<&str>) -> (r: String)
    ensures
        r@ == expand_home(path@, match home { Some(h) => Some(h@), None => None }),
        !path_starts_with(path@, "~"@) ==> r@ == path@,
        home is None ==> r@ == path@,
        path_strip_prefix(path@, "~"@) matches Some(rest) ==> (home matches Some(h) ==> r@
            == path_join(h@, rest)),
{
    match strip_path_prefix(path, "~") {
        Some(rest) => match home {
            Some(h) => join_path(h, rest.as_str()),
            None => String::from_str(path),
        },
        None => String::from_str(path),
    }
}

/// Expands a leading `~` of `path` against the home directory of this process.
pub fn normalize_path(path: &str) -> (r: String)
    ensures
        exists|home: Option<Seq<char>>| r@ == expand_home(path@, home),
        !path_starts_with(path@, "~"@) ==> r@ == path@,
{
    if path_has_prefix(path, "~") {
        let home = home_dir();
        match home {
            Some(h) => {
                let r = normalize_with_home(path, Some(h.as_str()));
                assert(r@ == expand_home(path@, Some(h@)));
                r
            },
            None => {
                let r = normalize_with_home(path, None);
                assert(r@ == expand_home(path@, None));
                r
            },
        }
    } else {
        let r = normalize_with_home(path, None);
        assert(r@ == expand_home(path@, None));
        r
    }
}

} // verus!
