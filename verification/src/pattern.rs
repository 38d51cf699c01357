//! Regular expressions, compiled with the `regex` crate, kept together
//! with their source text.

use vstd::prelude::*;

use crate::text::owned;

verus! {

#[verifier::external_type_specification]
#[verifier::external_body]
pub struct ExRegex(regex::Regex);

#[verifier::external_type_specification]
#[verifier::external_body]
pub struct ExRegexError(regex::Error);

/// Whether the regular expression `pattern` matches somewhere in `text`.
pub uninterp spec fn regex_matches(pattern: Seq<char>, text: Seq<char>) -> bool;

/// `regex::Regex::new`: compiles a pattern.  Whether it succeeds is not
/// stated: besides the syntax, the crate refuses patterns whose compiled
/// form passes a size limit, and that size depends on the machine's word
/// size.
#[verifier::external_body]
fn regex_new(pattern: &str) -> (r: Result<regex::Regex, regex::Error>)
{
    regex::Regex::new(pattern)
}

/// `regex::Regex::is_match` on the compiled regex of `p`: whether it
/// matches somewhere in `text`.  A `CompiledPattern`'s regex is always the
/// compilation of its source text (its only constructor builds both from
/// the same string), so the result is named by `regex_matches` of the
/// source and the text.
#[verifier::external_body]
fn regex_is_match(p: &CompiledPattern, text: &str) -> (b: bool)
    ensures
        b == regex_matches(p.source_spec(), text@),
{
    p.regex.is_match(text)
}

/// A compiled regular expression and its source text.
#[derive(Debug)]
pub struct CompiledPattern {
    regex: regex::Regex,
    source: String,
}

impl CompiledPattern {
    /// The source text.
    pub closed spec fn source_spec(&self) -> Seq<char> {
        self.source@
    }

    /// Compiles a pattern; the regex crate's error for a bad one (or one
    /// too large to compile).
    pub fn new(pattern: &str) -> (r: Result<CompiledPattern, regex::Error>)
        ensures
            r matches Ok(p) ==> p.source_spec() == pattern@,
    {
        match regex_new(pattern) {
            Ok(re) => Ok(CompiledPattern { regex: re, source: owned(pattern) }),
            Err(e) => Err(e),
        }
    }

    /// The source text.
    pub fn as_str(&self) -> (r: &str)
        ensures
            r@ == self.source_spec(),
    {
        self.source.as_str()
    }

    /// Whether the pattern matches somewhere in `text`.
    pub fn is_match(&self, text: &str) -> (b: bool)
        ensures
            b == regex_matches(self.source_spec(), text@),
    {
        regex_is_match(self, text)
    }
}

} // verus!
