//! Regular-expression searches, performed by the `regex` crate.
//!
//! What a search returns is fixed by the pattern and the text alone, but the
//! pattern language is far too large to restate here. Each search therefore
//! has a name, and the contracts of this library speak of those names.

use vstd::prelude::*;

verus! {

/// The error with which `regex` rejects a pattern.
#[verifier::external_type_specification]
#[verifier::external_body]
pub struct ExRegexError(regex::Error);

/// What the first capture group of `pattern` holds at the leftmost match in
/// `text`: `None` where `pattern` does not compile, `Some(None)` where
/// nothing matches or the group took no part in the match.
pub uninterp spec fn first_group(pattern: Seq<char>, text: Seq<char>) -> Option<Option<Seq<char>>>;

/// `text` with every non-overlapping match of `pattern` replaced by the
/// expansion of `replacement`; `None` where `pattern` does not compile.
pub uninterp spec fn replaced(pattern: Seq<char>, text: Seq<char>, replacement: Seq<char>) -> Option<Seq<char>>;

/// The successive non-overlapping matches of `pattern` in `text`, in order;
/// `None` where `pattern` does not compile.
pub uninterp spec fn all_matches(pattern: Seq<char>, text: Seq<char>) -> Option<Seq<Seq<char>>>;

/// The texts of a sequence of strings.
pub open spec fn texts(v: Seq<String>) -> Seq<Seq<char>> {
    v.map_values(|s: String| s@)
}

/// The text of an optional string.
pub open spec fn opt_text(o: Option<String>) -> Option<Seq<char>> {
    match o {
        Some(s) => Some(s@),
        None => None,
    }
}

/// Compiles `pattern` with `regex::Regex::new` and searches `text` with
/// `Regex::captures`, handing back the text of capture group 1
/// (`Captures::get`). Trusted: the result is the one named by
/// [`first_group`], and a pattern that `regex` rejects gives its error.
#[verifier::external_body]
pub(crate) fn capture_first_group(pattern: &str, text: &str) -> (r: Result<Option<String>, regex::Error>)
    ensures
        r is Ok ==> first_group(pattern@, text@) == Some(opt_text(r->Ok_0)),
        r is Err ==> first_group(pattern@, text@) is None,
{
    let re = regex::Regex::new(pattern)?;
    Ok(re.captures(text).and_then(|c| c.get(1)).map(|m| m.as_str().to_string()))
}

/// Compiles `pattern` with `regex::Regex::new` and rewrites `text` with
/// `Regex::replace_all`. Trusted: the result is the one named by
/// [`replaced`], and a pattern that `regex` rejects gives its error.
#[verifier::external_body]
pub(crate) fn replace_every(pattern: &str, text: &str, replacement: &str) -> (r: Result<String, regex::Error>)
    ensures
        r is Ok ==> replaced(pattern@, text@, replacement@) == Some(r->Ok_0@),
        r is Err ==> replaced(pattern@, text@, replacement@) is None,
{
    let re = regex::Regex::new(pattern)?;
    Ok(re.replace_all(text, replacement).into_owned())
}

/// Compiles `pattern` with `regex::Regex::new` and collects the matches that
/// `Regex::find_iter` yields in `text`. Trusted: the result is the one named
/// by [`all_matches`], and a pattern that `regex` rejects gives its error.
#[verifier::external_body]
pub(crate) fn find_every(pattern: &str, text: &str) -> (r: Result<Vec<String>, regex::Error>)
    ensures
        r is Ok ==> all_matches(pattern@, text@) == Some(texts(r->Ok_0@)),
        r is Err ==> all_matches(pattern@, text@) is None,
{
    let re = regex::Regex::new(pattern)?;
    Ok(re.find_iter(text).map(|m| m.as_str().to_string()).collect())
}

} // verus!
