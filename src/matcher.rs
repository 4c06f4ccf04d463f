//! A compiled search pattern. The regular expression engine is the `regex`
//! crate; what it decides is named here and carried through the contracts.
use regex::{Regex, RegexBuilder};
use vstd::prelude::*;

verus! {

#[verifier::external_type_specification]
#[verifier::external_body]
pub struct ExRegex(Regex);

#[verifier::external_type_specification]
#[verifier::external_body]
pub struct ExRegexError(regex::Error);

/// Whether `regex` accepts `pattern` as a regular expression, with case
/// folding switched on or off.
pub uninterp spec fn regex_compiles(pattern: Seq<char>, case_insensitive: bool) -> bool;

/// Whether the regular expression `pattern`, with case folding switched on or
/// off, matches somewhere in `haystack`.
pub uninterp spec fn regex_finds(pattern: Seq<char>, case_insensitive: bool, haystack: Seq<char>) -> bool;

/// Relies on `regex::RegexBuilder::new(..).case_insensitive(..).build()`: it
/// fails exactly on the patterns that the engine refuses, which depends on
/// the pattern and the flag alone.
#[verifier::external_body]
fn compile(pattern: &str, case_insensitive: bool) -> (r: Result<Regex, regex::Error>)
    ensures
        r is Ok <==> regex_compiles(pattern@, case_insensitive),
{
    RegexBuilder::new(pattern).case_insensitive(case_insensitive).build()
}

/// A regular expression together with the source text and case flag it was
/// compiled from.
#[derive(Debug)]
pub struct Matcher {
    regex: Regex,
    source: String,
    case_insensitive: bool,
}

impl Matcher {
    /// The pattern text this matcher was compiled from.
    pub closed spec fn source(&self) -> Seq<char> {
        self.source@
    }

    /// Whether this matcher ignores case.
    pub closed spec fn case_insensitive(&self) -> bool {
        self.case_insensitive
    }

    /// Whether this matcher finds a match in `text`.
    pub open spec fn finds(&self, text: Seq<char>) -> bool {
        regex_finds(self.source(), self.case_insensitive(), text)
    }

    /// Compiles `pattern`; `None` when the regular expression engine refuses it.
    pub fn new(pattern: &str, case_insensitive: bool) -> (r: Option<Matcher>)
        ensures
            r is Some <==> regex_compiles(pattern@, case_insensitive),
            r matches Some(m) ==> m.source() == pattern@ && m.case_insensitive()
                == case_insensitive,
    {
        match compile(pattern, case_insensitive) {
            Ok(regex) => Some(Matcher { regex, source: pattern.to_owned(), case_insensitive }),
            Err(_) => None,
        }
    }

    /// Relies on `regex::Regex::is_match`, applied to the regex that `new`
    /// compiled from `source` and `case_insensitive`: whether it matches
    /// anywhere in `haystack`.
    #[verifier::external_body]
    fn regex_is_match(&self, haystack: &str) -> (r: bool)
        ensures
            r == regex_finds(self.source(), self.case_insensitive(), haystack@),
    {
        self.regex.is_match(haystack)
    }

    /// Whether this matcher finds a match anywhere in `text`.
    pub fn is_match(&self, text: &str) -> (r: bool)
        ensures
            r == self.finds(text@),
    {
        self.regex_is_match(text)
    }
}

} // verus!
