//! Calls into std, glob and regex whose results the library names but does
//! not restate.

use vstd::prelude::*;

verus! {

/// What `str::to_lowercase` returns for a string: Unicode lower-casing,
/// determined by the characters alone.
pub uninterp spec fn lower_of(s: Seq<char>) -> Seq<char>;

/// Whether `glob::Pattern::new(pattern)` succeeds and the compiled pattern
/// matches `path` under `glob::Pattern::matches_with`, with
/// `require_literal_separator` set (so `*`, `?` and `[..]` never match a
/// `/`) and the other options as `glob::MatchOptions::new()` has them.
pub uninterp spec fn glob_match_of(pattern: Seq<char>, path: Seq<char>) -> bool;

/// Whether `regex::Regex::new(pattern)` succeeds and the compiled expression
/// finds a match anywhere in `text` under `regex::Regex::is_match`.
pub uninterp spec fn regex_match_of(pattern: Seq<char>, text: Seq<char>) -> bool;

/// Relies on `str::to_lowercase`: the result depends on the characters alone.
#[verifier::external_body]
pub(crate) fn lowercase(s: &str) -> (r: String)
    ensures
        r@ == lower_of(s@),
{
    s.to_lowercase()
}

/// Relies on `glob::Pattern::new` and `glob::Pattern::matches_with`, with
/// `*` kept within one path segment: a pattern that does not compile
/// matches nothing.
#[verifier::external_body]
pub(crate) fn matches_glob_pattern(path: &str, pattern: &str) -> (r: bool)
    ensures
        r == glob_match_of(pattern@, path@),
{
    match glob::Pattern::new(pattern) {
        Ok(p) => p.matches_with(
            path,
            glob::MatchOptions { require_literal_separator: true, ..glob::MatchOptions::new() },
        ),
        Err(_) => false,
    }
}

/// Relies on `regex::Regex::new` and `regex::Regex::is_match`: an
/// expression that does not compile matches nothing.
#[verifier::external_body]
pub(crate) fn regex_matches(pattern: &str, text: &str) -> (r: bool)
    ensures
        r == regex_match_of(pattern@, text@),
{
    match regex::Regex::new(pattern) {
        Ok(re) => re.is_match(text),
        Err(_) => false,
    }
}

} // verus!
