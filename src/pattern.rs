//! The compiled email pattern, and the search for its matches in one line.
use vstd::prelude::*;
use crate::grammar::is_email;

verus! {

#[verifier::external_type_specification]
#[verifier::external_body]
pub struct ExRegex(regex::Regex);

#[verifier::external_type_specification]
#[verifier::external_body]
pub struct ExRegexError(regex::Error);

/// The source text of the email pattern, in the regex crate's syntax. It
/// denotes the language that `grammar::is_email` states.
pub const EMAIL_PATTERN: &'static str = r#"(?:[a-z0-9!#$%&'*+/=?^_`{|}~-]+(?:\.[a-z0-9!#$%&'*+/=?^_`{|}~-]+)*|"(?:[\x01-\x08\x0b\x0c\x0e-\x1f\x21\x23-\x5b\x5d-\x7f]|\\[\x01-\x09\x0b\x0c\x0e-\x7f])*")@(?:(?:[a-z0-9](?:[a-z0-9-]*[a-z0-9])?\.)+[a-z0-9](?:[a-z0-9-]*[a-z0-9])?|\[(?:(?:25[0-5]|2[0-4][0-9]|[01]?[0-9][0-9]?)\.){3}(?:25[0-5]|2[0-4][0-9]|[01]?[0-9][0-9]?|[a-z0-9-]*[a-z0-9]:(?:[\x01-\x08\x0b\x0c\x0e-\x1f\x21-\x5a\x53-\x7f]|\\[\x01-\x09\x0b\x0c\x0e-\x7f])+)\])"#;

/// The matches of the email pattern in `line`, left to right and
/// non-overlapping, as the regex crate's search finds them.
pub uninterp spec fn email_matches(line: Seq<char>) -> Seq<Seq<char>>;

/// The character sequences that a list of strings holds.
pub open spec fn texts(v: Seq<String>) -> Seq<Seq<char>> {
    v.map_values(|s: String| s@)
}

/// Why the email pattern could not be made ready.
#[derive(Debug)]
pub enum PatternError {
    /// The regex crate refused to compile the pattern.
    Malformed(regex::Error),
}

/// The email pattern, compiled once and used for every line.
///
/// Its regex is private and is only ever compiled from `EMAIL_PATTERN`.
pub struct EmailPattern {
    re: regex::Regex,
}

/// Relies on regex::Regex::new to compile `source`; it fails on a pattern
/// that is invalid or too large to compile.
#[verifier::external_body]
fn compile(source: &str) -> (r: Result<regex::Regex, regex::Error>) {
    regex::Regex::new(source)
}

/// Relies on regex::Regex::find_iter and regex::Match::as_str: they yield
/// the successive non-overlapping matches of the email pattern in `line`,
/// each a substring of `line` that the pattern matches whole.
#[verifier::external_body]
fn find_all(pattern: &EmailPattern, line: &str) -> (r: Vec<String>)
    ensures
        texts(r@) == email_matches(line@),
        forall|i: int| 0 <= i < r@.len() ==> is_email(#[trigger] r@[i]@),
{
    pattern.re.find_iter(line).map(|m| m.as_str().to_string()).collect()
}

impl EmailPattern {
    /// Compiles the email pattern.
    pub fn new() -> (r: Result<EmailPattern, PatternError>) {
        match compile(EMAIL_PATTERN) {
            Ok(re) => Ok(EmailPattern { re }),
            Err(e) => Err(PatternError::Malformed(e)),
        }
    }

    /// Every match of the email pattern in `line`, left to right.
    pub fn matches_in(&self, line: &str) -> (r: Vec<String>)
        ensures
            texts(r@) == email_matches(line@),
            forall|i: int| 0 <= i < r@.len() ==> is_email(#[trigger] r@[i]@),
    {
        find_all(self, line)
    }
}

} // verus!
