//! Small helpers on text, and the calls on text that are taken on trust.

use vstd::prelude::*;

verus! {

/// Whether two string slices hold the same characters.
pub fn same_text(a: &str, b: &str) -> (r: bool)
    ensures
        r == (a@ == b@),
{
    let left: String = a.to_owned();
    let right: String = b.to_owned();
    left == right
}

/// Whether the regular expression `pattern`, once compiled, finds a match
/// anywhere in `text`.
pub uninterp spec fn regex_accepts(pattern: Seq<char>, text: Seq<char>) -> bool;

/// `text` without the white space at its two ends.
pub uninterp spec fn trimmed(text: Seq<char>) -> Seq<char>;

/// `text` without the white space at its end.
pub uninterp spec fn trimmed_end(text: Seq<char>) -> Seq<char>;

/// `regex::Regex::new`, then `Regex::is_match` on the result.  When the
/// pattern compiles, the answer is that of the match, and is the same for the
/// same pattern and text.  Nothing is claimed about when a pattern compiles:
/// `None` stands for a pattern that did not.
#[verifier::external_body]
fn regex_is_match(pattern: &str, text: &str) -> (r: Option<bool>)
    ensures
        r matches Some(found) ==> found == regex_accepts(pattern@, text@),
{
    match regex::Regex::new(pattern) {
        Ok(re) => Some(re.is_match(text)),
        Err(_) => None,
    }
}

/// `str::trim`: the slice without leading and trailing white space.  The
/// result depends on the text alone.
#[verifier::external_body]
fn str_trim(text: &str) -> (r: &str)
    ensures
        r@ == trimmed(text@),
{
    text.trim()
}

/// `str::trim_end`: the slice without trailing white space.  The result
/// depends on the text alone.
#[verifier::external_body]
fn str_trim_end(text: &str) -> (r: &str)
    ensures
        r@ == trimmed_end(text@),
{
    text.trim_end()
}

/// What the outcome of a match means: only a pattern that compiled and
/// matched accepts.
pub fn accepted(outcome: Option<bool>) -> (ok: bool)
    ensures
        ok == (outcome == Some(true)),
{
    match outcome {
        Some(found) => found,
        None => false,
    }
}

/// Whether `pattern` finds a match in `text`.  `true` is given only for a
/// match; `false` also stands for a pattern that does not compile.
pub fn matches_pattern(pattern: &str, text: &str) -> (ok: bool)
    ensures
        ok ==> regex_accepts(pattern@, text@),
{
    accepted(regex_is_match(pattern, text))
}

/// `text` without the white space at its two ends, as a text of its own.
pub fn trim(text: &str) -> (r: String)
    ensures
        r@ == trimmed(text@),
{
    str_trim(text).to_owned()
}

/// `text` without the white space at its end, as a text of its own.
pub fn trim_end(text: &str) -> (r: String)
    ensures
        r@ == trimmed_end(text@),
{
    str_trim_end(text).to_owned()
}

} // verus!
