//! Patterns for names and for texts.

use vstd::prelude::*;

verus! {

/// `regex::Regex`: a regular expression that is ready to be searched for.
#[verifier::external_type_specification]
#[verifier::external_body]
pub struct ExRegex(regex::Regex);

/// The pattern that a regular expression was made of, and whether it takes
/// capital and small letters for the same.
pub uninterp spec fn regex_source(regex: regex::Regex) -> (Seq<char>, bool);

/// The message with which `regex` refuses a pattern; none for a pattern that
/// it accepts.
pub uninterp spec fn regex_error(pattern: Seq<char>, ignore_case: bool) -> Option<Seq<char>>;

/// Whether a regular expression matches somewhere in a text.
pub uninterp spec fn regex_hit(pattern: Seq<char>, ignore_case: bool, text: Seq<char>) -> bool;

/// Calls `regex::RegexBuilder::build` with `case_insensitive`: the regular
/// expression of the pattern, or the message of the error. Which it is depends
/// on the arguments alone; the message is named `regex_error`.
#[verifier::external_body]
pub(crate) fn build_regex(pattern: &str, ignore_case: bool) -> (r: Result<regex::Regex, String>)
    ensures
        match r {
            Ok(x) => regex_error(pattern@, ignore_case) is None && regex_source(x) == (
                pattern@,
                ignore_case,
            ),
            Err(e) => regex_error(pattern@, ignore_case) == Some(e@),
        },
{
    regex::RegexBuilder::new(pattern).case_insensitive(ignore_case).build().map_err(
        |e| e.to_string(),
    )
}

/// Calls `regex::Regex::is_match`: whether the expression matches somewhere in
/// the text. It depends on what the expression was made of and on the text,
/// and is named `regex_hit`.
#[verifier::external_body]
pub(crate) fn regex_matches(regex: &regex::Regex, text: &str) -> (r: bool)
    ensures
        r == regex_hit(regex_source(*regex).0, regex_source(*regex).1, text@),
{
    regex.is_match(text)
}

/// `glob::Pattern`: a pattern for names that is ready to be matched.
#[verifier::external_type_specification]
#[verifier::external_body]
pub struct ExPattern(glob::Pattern);

/// The text that a pattern for names was made of.
pub uninterp spec fn glob_source(pattern: glob::Pattern) -> Seq<char>;

/// The message with which `glob` refuses a pattern; none for a pattern that it
/// accepts.
pub uninterp spec fn glob_error(pattern: Seq<char>) -> Option<Seq<char>>;

/// Whether a pattern for names matches the whole of a name.
pub uninterp spec fn glob_hit(pattern: Seq<char>, name: Seq<char>) -> bool;

/// Calls `glob::Pattern::new`: the pattern, or the message of the error. Which
/// it is depends on the text alone; the message is named `glob_error`.
#[verifier::external_body]
pub(crate) fn build_glob(pattern: &str) -> (r: Result<glob::Pattern, String>)
    ensures
        match r {
            Ok(p) => glob_error(pattern@) is None && glob_source(p) == pattern@,
            Err(e) => glob_error(pattern@) == Some(e@),
        },
{
    glob::Pattern::new(pattern).map_err(|e| e.to_string())
}

/// Calls `glob::Pattern::matches`: whether the pattern matches the name. It
/// depends on the text that the pattern was made of and on the name, and is
/// named `glob_hit`.
#[verifier::external_body]
pub(crate) fn glob_matches(pattern: &glob::Pattern, name: &str) -> (r: bool)
    ensures
        r == glob_hit(glob_source(*pattern), name@),
{
    pattern.matches(name)
}

} // verus!
