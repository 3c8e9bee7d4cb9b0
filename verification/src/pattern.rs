//! Regular expressions, behind the `regex` crate.

use vstd::prelude::*;

verus! {

/// Whether `regex::Regex::new` accepts a pattern.
pub uninterp spec fn regex_compiles(pattern: Seq<char>) -> bool;

/// What `regex::Regex::is_match` answers, for the regex built from a pattern,
/// on a text.
pub uninterp spec fn regex_finds(pattern: Seq<char>, text: Seq<char>) -> bool;

/// `regex::Regex::new` followed by `Regex::is_match`: `None` when the
/// pattern does not compile, else whether the regex matches somewhere in the
/// text. Both results are named, as functions of the pattern and the text.
#[verifier::external_body]
pub fn regex_match(pattern: &str, text: &str) -> (r: Option<bool>)
    ensures
        r == (if regex_compiles(pattern@) { Some(regex_finds(pattern@, text@)) } else { None::<bool> }),
{
    match regex::Regex::new(pattern) {
        Ok(re) => Some(re.is_match(text)),
        Err(_) => None,
    }
}

/// What `regex::Regex::find` gives, for the regex built from a pattern, on a
/// text: the text of the leftmost match, if any.
pub uninterp spec fn regex_first(pattern: Seq<char>, text: Seq<char>) -> Option<Seq<char>>;

/// `regex::Regex::new` followed by `Regex::find`: `None` when the pattern
/// does not compile, else the text of the leftmost match, if there is one.
/// As the crate documents, there is a match exactly when `is_match` says so,
/// and a match is a piece of the text.
#[verifier::external_body]
pub fn regex_find(pattern: &str, text: &str) -> (r: Option<Option<String>>)
    ensures
        match r {
            None => !regex_compiles(pattern@),
            Some(m) => regex_compiles(pattern@) && match m {
                Some(found) => regex_first(pattern@, text@) == Some(found@) && regex_finds(pattern@, text@)
                    && crate::text::contains_sub(text@, found@),
                None => regex_first(pattern@, text@) is None && !regex_finds(pattern@, text@),
            },
        },
{
    match regex::Regex::new(pattern) {
        Ok(re) => Some(re.find(text).map(|m| m.as_str().to_string())),
        Err(_) => None,
    }
}

/// Whether the pattern compiles and matches the text.
pub open spec fn pattern_hits(pattern: Seq<char>, text: Seq<char>) -> bool {
    regex_compiles(pattern) && regex_finds(pattern, text)
}

} // verus!
