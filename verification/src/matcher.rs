//! The regular-expression engine (the `regex` crate) behind the pattern table.
//!
//! A pattern is kept as its source text; every trusted item below takes plain
//! strings and hands back plain values.

use vstd::prelude::*;

verus! {

/// Whether `regex::Regex::new` accepts `pattern`: it rejects a pattern with a
/// syntax error or one whose compiled form exceeds the default size limit.
/// Both depend on the pattern text alone.
pub uninterp spec fn regex_compiles(pattern: Seq<char>) -> bool;

/// Whether the regex compiled from `pattern` by `regex::Regex::new` matches
/// somewhere in `haystack` (`regex::Regex::is_match`).
pub uninterp spec fn regex_finds(pattern: Seq<char>, haystack: Seq<char>) -> bool;

#[verifier::external_type_specification]
#[verifier::external_body]
pub struct ExRegexError(regex::Error);

/// Calls `regex::Regex::new(pattern)` and keeps only whether it succeeded.
/// Claimed: the call succeeds exactly when `regex_compiles(pattern@)`; the
/// error value is handed back untouched.
#[verifier::external_body]
pub(crate) fn compile_pattern(pattern: &str) -> (r: Result<(), regex::Error>)
    ensures
        r is Ok <==> regex_compiles(pattern@),
{
    match regex::Regex::new(pattern) {
        Ok(_) => Ok(()),
        Err(e) => Err(e),
    }
}

/// Compiles `pattern` with `regex::Regex::new` and asks
/// `regex::Regex::is_match` whether it matches somewhere in `haystack`.
/// Claimed: for a pattern that compiles, the answer is
/// `regex_finds(pattern@, haystack@)`.
#[verifier::external_body]
pub(crate) fn pattern_finds(pattern: &str, haystack: &str) -> (b: bool)
    requires
        regex_compiles(pattern@),
    ensures
        b == regex_finds(pattern@, haystack@),
{
    match regex::Regex::new(pattern) {
        Ok(re) => re.is_match(haystack),
        Err(_) => false,
    }
}

/// The explanation `regex::Regex::new` gives (the `Display` text of its
/// error) for a pattern that does not compile. It names the problem and where
/// in the pattern it is, and depends on the pattern alone.
pub uninterp spec fn regex_error_message(pattern: Seq<char>) -> Seq<char>;

/// Calls `regex::Regex::new(pattern)` for a pattern that does not compile and
/// returns its error's text (`to_string`). Claimed: the text is
/// `regex_error_message(pattern@)`.
#[verifier::external_body]
pub(crate) fn compile_error_message(pattern: &str) -> (m: String)
    requires
        !regex_compiles(pattern@),
    ensures
        m@ == regex_error_message(pattern@),
{
    match regex::Regex::new(pattern) {
        Ok(_) => String::new(),
        Err(e) => e.to_string(),
    }
}

} // verus!
