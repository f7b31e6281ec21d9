//! Regular-expression queries, through the `regex` crate. What a pattern
//! matches is the crate's to decide: it is named here, not restated.
use vstd::prelude::*;

verus! {

/// Whether `regex::Regex::new` accepts the pattern.
pub uninterp spec fn regex_compiles(pattern: Seq<char>) -> bool;

/// The message of the error `regex::Regex::new` gives for a pattern it
/// refuses.
pub uninterp spec fn regex_error_text(pattern: Seq<char>) -> Seq<char>;

/// The byte spans `(start, end)` of the successive non-overlapping matches of
/// a pattern in a text, as `regex::Regex::find_iter` yields them.
pub uninterp spec fn regex_spans(pattern: Seq<char>, text: Seq<char>) -> Seq<(usize, usize)>;

/// Whether a pattern matches anywhere in a text (`regex::Regex::is_match`).
pub uninterp spec fn regex_matches(pattern: Seq<char>, text: Seq<char>) -> bool;

/// Compiles a pattern with `regex::Regex::new` and gives the message of the
/// error (its `Display`) when the pattern is refused, nothing when it is
/// accepted.
#[verifier::external_body]
pub(crate) fn regex_error(pattern: &str) -> (r: Option<String>)
    ensures
        r is None <==> regex_compiles(pattern@),
        r matches Some(m) ==> m@ == regex_error_text(pattern@),
{
    regex::Regex::new(pattern).err().map(|e| e.to_string())
}

/// Compiles a pattern with `regex::Regex::new` and lists the byte spans of
/// its matches in `text` from `Regex::find_iter` (`Match::start`,
/// `Match::end`). The crate guarantees that a match starts no later than it
/// ends; which spans match is named, not stated.
#[verifier::external_body]
pub(crate) fn regex_find_spans(pattern: &str, text: &str) -> (r: Vec<(usize, usize)>)
    requires
        regex_compiles(pattern@),
    ensures
        r@ == regex_spans(pattern@, text@),
        forall|i: int| 0 <= i < r.len() ==> (#[trigger] r@[i]).0 <= r@[i].1,
{
    match regex::Regex::new(pattern) {
        Ok(re) => re.find_iter(text).map(|m| (m.start(), m.end())).collect(),
        Err(_) => Vec::new(),
    }
}

/// Compiles a pattern with `regex::Regex::new` and tests with
/// `Regex::is_match` whether it matches anywhere in `text`; the answer is
/// named, not stated.
#[verifier::external_body]
pub(crate) fn regex_is_match(pattern: &str, text: &str) -> (r: bool)
    requires
        regex_compiles(pattern@),
    ensures
        r == regex_matches(pattern@, text@),
{
    match regex::Regex::new(pattern) {
        Ok(re) => re.is_match(text),
        Err(_) => false,
    }
}

} // verus!
