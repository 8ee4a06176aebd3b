//! Selection of signals by a regular expression over their qualified names.
use crate::error::Error;
use vstd::prelude::*;

verus! {

#[verifier::external_type_specification]
#[verifier::external_body]
pub struct ExRegex(regex::Regex);

/// Whether `pattern` compiles as a regular expression.
pub uninterp spec fn regex_valid(pattern: Seq<char>) -> bool;

/// Whether the regular expression `pattern` matches somewhere in `text`.
pub uninterp spec fn regex_accepts(pattern: Seq<char>, text: Seq<char>) -> bool;

/// Relies on `regex::Regex::new`: it compiles `pattern`, and whether it
/// succeeds depends on the pattern alone.
#[verifier::external_body]
fn compile_regex(pattern: &str) -> (r: Result<regex::Regex, String>)
    ensures
        r is Ok <==> regex_valid(pattern@),
{
    regex::Regex::new(pattern).map_err(|e| e.to_string())
}

/// A compiled signal pattern, kept with its source text.
pub struct SignalFilter {
    pattern: String,
    re: regex::Regex,
}

/// Relies on `regex::Regex::is_match` on the expression that
/// [`SignalFilter::new`] compiled from `f`'s pattern: whether it matches
/// somewhere in `text`.
#[verifier::external_body]
fn filter_is_match(f: &SignalFilter, text: &str) -> (r: bool)
    ensures
        r == regex_accepts(f.pattern(), text@),
{
    f.re.is_match(text)
}

impl SignalFilter {
    /// The source text of the pattern.
    pub closed spec fn pattern(&self) -> Seq<char> {
        self.pattern@
    }

    /// Compiles `pattern`; fails exactly when it is no valid expression.
    pub fn new(pattern: &str) -> (r: Result<SignalFilter, Error>)
        ensures
            r is Ok <==> regex_valid(pattern@),
            r matches Ok(f) ==> f.pattern() == pattern@,
            r matches Err(e) ==> e is InvalidRegex,
    {
        match compile_regex(pattern) {
            Ok(re) => Ok(SignalFilter { pattern: pattern.to_owned(), re }),
            Err(msg) => Err(Error::InvalidRegex(msg)),
        }
    }

    /// Returns the source text of the pattern.
    pub fn as_str(&self) -> (r: &str)
        ensures
            r@ == self.pattern(),
    {
        self.pattern.as_str()
    }

    /// Whether the pattern matches somewhere in `name`.
    pub fn is_match(&self, name: &str) -> (r: bool)
        ensures
            r == regex_accepts(self.pattern(), name@),
    {
        filter_is_match(self, name)
    }
}

} // verus!
