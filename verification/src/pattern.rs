//! Compiled match patterns, backed by the `regex` crate.
//!
//! A `Matcher` keeps the pattern text next to the compiled regex. Its view is
//! the pattern text, and the behaviour of the compiled regex is described by
//! names for what the `regex` crate computes from that text.
use vstd::prelude::*;

verus! {

#[verifier::external_type_specification]
#[verifier::external_body]
pub struct ExRegex(regex::Regex);

#[verifier::external_type_specification]
#[verifier::external_body]
pub struct ExRegexError(regex::Error);

/// Whether `regex::Regex::new` accepts the pattern text `source`
/// (valid syntax, and within the default size limit).
pub uninterp spec fn regex_compiles(source: Seq<char>) -> bool;

/// Whether the regex compiled from `source` matches anywhere in `haystack`
/// (`regex::Regex::is_match`).
pub uninterp spec fn regex_is_match(source: Seq<char>, haystack: Seq<char>) -> bool;

/// The text that `regex::Regex::replace_all` produces when the regex compiled
/// from `source` replaces every match in `haystack` by `replacement`
/// (with `$name` / `${name}` group references expanded).
pub uninterp spec fn regex_replace_all(
    source: Seq<char>,
    haystack: Seq<char>,
    replacement: Seq<char>,
) -> Seq<char>;

/// The pattern that stands in for a match field that does not compile:
/// it only matches the empty text.
pub open spec fn fallback_source() -> Seq<char> {
    seq!['^', '$']
}

/// Trusted: calls `regex::Regex::new`. Claims that it succeeds exactly when
/// `regex_compiles` holds of the pattern text, and that the anchors-only
/// pattern `^$` is accepted. The error value is passed on unread.
#[verifier::external_body]
fn regex_new(source: &str) -> (r: Result<regex::Regex, regex::Error>)
    ensures
        r is Ok <==> regex_compiles(source@),
        source@ == fallback_source() ==> r is Ok,
{
    regex::Regex::new(source)
}

/// Why a pattern text was refused.
#[derive(Debug, PartialEq, Eq)]
pub struct InvalidPattern {
    pub source: String,
}

/// A regex compiled from `source`. Only `Matcher::new` and
/// `Matcher::from_field` build one, and neither changes it afterwards, so the
/// compiled regex is always the one `regex::Regex::new(source)` returned.
#[derive(Debug)]
pub struct Matcher {
    source: String,
    compiled: regex::Regex,
}

impl View for Matcher {
    type V = Seq<char>;

    closed spec fn view(&self) -> Seq<char> {
        self.source@
    }
}

/// Trusted: calls `regex::Regex::is_match` on the matcher's compiled regex.
/// Claims the result is `regex_is_match` of the matcher's pattern text and
/// the haystack.
#[verifier::external_body]
fn regex_matches(m: &Matcher, haystack: &str) -> (b: bool)
    ensures
        b == regex_is_match(m@, haystack@),
{
    m.compiled.is_match(haystack)
}

/// Trusted: calls `regex::Regex::replace_all` with a `&str` replacement and
/// turns the `Cow` it returns into a `String`. Claims the text is
/// `regex_replace_all` of the pattern text, haystack and replacement, and, as
/// the crate documents, that the haystack comes back unchanged when the
/// regex does not match it.
#[verifier::external_body]
fn regex_replace(m: &Matcher, haystack: &str, replacement: &str) -> (r: String)
    ensures
        r@ == regex_replace_all(m@, haystack@, replacement@),
        !regex_is_match(m@, haystack@) ==> r@ == haystack@,
{
    m.compiled.replace_all(haystack, replacement).to_string()
}

impl Matcher {
    /// Compiles `source`; refused exactly when the `regex` crate refuses it.
    pub fn new(source: &str) -> (r: Result<Matcher, InvalidPattern>)
        ensures
            r is Ok <==> regex_compiles(source@),
            r matches Ok(m) ==> m@ == source@,
            r matches Err(e) ==> e.source@ == source@,
    {
        match regex_new(source) {
            Ok(compiled) => Ok(Matcher { source: source.to_string(), compiled }),
            Err(_) => Err(InvalidPattern { source: source.to_string() }),
        }
    }

    /// The matcher for a match field: the field's pattern when it compiles,
    /// otherwise the pattern `^$`.
    pub fn from_field(source: &str) -> (m: Matcher)
        ensures
            m@ == (if regex_compiles(source@) { source@ } else { fallback_source() }),
    {
        match Matcher::new(source) {
            Ok(m) => m,
            Err(_) => {
                let fallback = "^$";
                proof {
                    reveal_strlit("^$");
                    assert(fallback@ =~= fallback_source());
                }
                let compiled = regex_new(fallback).unwrap();
                Matcher { source: fallback.to_string(), compiled }
            }
        }
    }

    /// The pattern text this matcher was compiled from.
    pub fn source(&self) -> (s: &str)
        ensures
            s@ == self@,
    {
        self.source.as_str()
    }

    /// Whether the regex matches anywhere in `haystack`.
    pub fn is_match(&self, haystack: &str) -> (b: bool)
        ensures
            b == regex_is_match(self@, haystack@),
    {
        regex_matches(self, haystack)
    }

    /// Every match in `haystack` replaced by `replacement`.
    pub fn replace_all(&self, haystack: &str, replacement: &str) -> (r: String)
        ensures
            r@ == regex_replace_all(self@, haystack@, replacement@),
            !regex_is_match(self@, haystack@) ==> r@ == haystack@,
    {
        regex_replace(self, haystack, replacement)
    }
}

} // verus!
