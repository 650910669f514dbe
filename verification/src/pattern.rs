//! Regular expressions, as the `regex` crate understands them.
//!
//! The crate decides whether a pattern compiles and where it matches. Those
//! answers are named here and believed; what the library does with them is
//! verified against the names.

use crate::text::texts;
use regex::Regex;
use vstd::prelude::*;
use vstd::string::StringExecFns;

verus! {

/// `regex::Error`, the error of `Regex::new`. Nothing is known of a value of
/// it; it is only carried to where it is described.
#[verifier::external_type_specification]
#[verifier::external_body]
pub struct ExRegexError(regex::Error);

/// Whether `Regex::new` accepts `pattern`.
pub uninterp spec fn pattern_compiles(pattern: Seq<char>) -> bool;

/// What `Regex::replace_all` returns for the compiled `pattern`, the haystack
/// `text` and the replacement template `rep`.
pub uninterp spec fn all_replaced(pattern: Seq<char>, text: Seq<char>, rep: Seq<char>) -> Seq<char>;

/// What `Regex::replacen` returns for the compiled `pattern`, the haystack
/// `text`, the given `limit` and the replacement template `rep`.
pub uninterp spec fn some_replaced(
    pattern: Seq<char>,
    text: Seq<char>,
    limit: nat,
    rep: Seq<char>,
) -> Seq<char>;

/// The texts of the matches that `Regex::find_iter` yields for the compiled
/// `pattern` in `text`, in the order in which they come.
pub uninterp spec fn matches_of(pattern: Seq<char>, text: Seq<char>) -> Seq<Seq<char>>;

/// The pieces that `Regex::split` yields for the compiled `pattern` in
/// `text`, in the order in which they come.
pub uninterp spec fn gaps_of(pattern: Seq<char>, text: Seq<char>) -> Seq<Seq<char>>;

/// A pattern that the `regex` crate refused.
pub struct PatternError {
    /// The pattern as it was given.
    pub pattern: String,
    /// What the crate said of it.
    pub detail: String,
}

/// Compiles `pattern` with `Regex::new` and runs `Regex::replace_all`. The
/// call fails exactly when the pattern does not compile; the text it returns
/// is named.
#[verifier::external_body]
fn run_replace_all(pattern: &str, text: &str, rep: &str) -> (r: Result<String, regex::Error>)
    ensures
        r is Ok <==> pattern_compiles(pattern@),
        r matches Ok(s) ==> s@ == all_replaced(pattern@, text@, rep@),
{
    let re = Regex::new(pattern)?;
    Ok(re.replace_all(text, rep).into_owned())
}

/// Compiles `pattern` with `Regex::new` and runs `Regex::replacen`. The call
/// fails exactly when the pattern does not compile; the text it returns is
/// named.
#[verifier::external_body]
fn run_replacen(pattern: &str, text: &str, limit: usize, rep: &str) -> (r: Result<
    String,
    regex::Error,
>)
    ensures
        r is Ok <==> pattern_compiles(pattern@),
        r matches Ok(s) ==> s@ == some_replaced(pattern@, text@, limit as nat, rep@),
{
    let re = Regex::new(pattern)?;
    Ok(re.replacen(text, limit, rep).into_owned())
}

/// Compiles `pattern` with `Regex::new` and copies out the text of each match
/// of `Regex::find_iter`.
#[verifier::external_body]
fn run_find_iter(pattern: &str, text: &str) -> (r: Result<Vec<String>, regex::Error>)
    ensures
        r is Ok <==> pattern_compiles(pattern@),
        r matches Ok(v) ==> texts(v@) == matches_of(pattern@, text@),
{
    let re = Regex::new(pattern)?;
    Ok(re.find_iter(text).map(|m| m.as_str().to_string()).collect())
}

/// Compiles `pattern` with `Regex::new` and copies out each piece that
/// `Regex::split` yields.
#[verifier::external_body]
fn run_split(pattern: &str, text: &str) -> (r: Result<Vec<String>, regex::Error>)
    ensures
        r is Ok <==> pattern_compiles(pattern@),
        r matches Ok(v) ==> texts(v@) == gaps_of(pattern@, text@),
{
    let re = Regex::new(pattern)?;
    Ok(re.split(text).map(|piece| piece.to_string()).collect())
}

/// The message of a `regex::Error`, as its `Display` writes it through
/// `to_string`. Nothing is claimed of the text.
#[verifier::external_body]
fn describe(error: &regex::Error) -> (r: String) {
    error.to_string()
}

/// The library's error for a pattern that the crate refused.
fn refused(pattern: &str, error: &regex::Error) -> (e: PatternError)
    ensures
        e.pattern@ == pattern@,
{
    PatternError { pattern: pattern.to_owned(), detail: describe(error) }
}

impl PatternError {
    /// The line that reports the error.
    pub fn message(&self) -> (r: String)
        ensures
            r@ == "Invalid regex: "@ + self.detail@,
    {
        "Invalid regex: ".to_owned().concat(self.detail.as_str())
    }
}

/// Replaces every match of `pattern` in `text` by the template `rep`.
pub fn replace_all(pattern: &str, text: &str, rep: &str) -> (r: Result<String, PatternError>)
    ensures
        r is Ok <==> pattern_compiles(pattern@),
        r matches Ok(s) ==> s@ == all_replaced(pattern@, text@, rep@),
        r matches Err(e) ==> e.pattern@ == pattern@,
{
    match run_replace_all(pattern, text, rep) {
        Ok(s) => Ok(s),
        Err(error) => Err(refused(pattern, &error)),
    }
}

/// Replaces the first `limit` matches of `pattern` in `text` by the template
/// `rep`; with a limit of 0, every match.
pub fn replace_some(pattern: &str, text: &str, limit: usize, rep: &str) -> (r: Result<
    String,
    PatternError,
>)
    ensures
        r is Ok <==> pattern_compiles(pattern@),
        r matches Ok(s) ==> s@ == some_replaced(pattern@, text@, limit as nat, rep@),
        r matches Err(e) ==> e.pattern@ == pattern@,
{
    match run_replacen(pattern, text, limit, rep) {
        Ok(s) => Ok(s),
        Err(error) => Err(refused(pattern, &error)),
    }
}

/// The matches of `pattern` in `text`, first to last.
pub fn find_all(pattern: &str, text: &str) -> (r: Result<Vec<String>, PatternError>)
    ensures
        r is Ok <==> pattern_compiles(pattern@),
        r matches Ok(v) ==> texts(v@) == matches_of(pattern@, text@),
        r matches Err(e) ==> e.pattern@ == pattern@,
{
    match run_find_iter(pattern, text) {
        Ok(v) => Ok(v),
        Err(error) => Err(refused(pattern, &error)),
    }
}

/// The pieces of `text` that lie between the matches of `pattern`.
pub fn split_around(pattern: &str, text: &str) -> (r: Result<Vec<String>, PatternError>)
    ensures
        r is Ok <==> pattern_compiles(pattern@),
        r matches Ok(v) ==> texts(v@) == gaps_of(pattern@, text@),
        r matches Err(e) ==> e.pattern@ == pattern@,
{
    match run_split(pattern, text) {
        Ok(v) => Ok(v),
        Err(error) => Err(refused(pattern, &error)),
    }
}

} // verus!
