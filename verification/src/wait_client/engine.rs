//! Compiled patterns.
use vstd::prelude::*;

verus! {

/// A compiled regex of the crate regex.
#[verifier::external_type_specification]
#[verifier::external_body]
pub struct ExRegex(regex::Regex);

/// A pattern that was taken, compiled once and kept with its source. Only
/// [`compile`] makes one.
#[derive(Debug)]
pub struct Pattern {
    re: regex::Regex,
    text: String,
}

impl Pattern {
    /// What the pattern was compiled from.
    pub closed spec fn source(self) -> Seq<char> {
        self.text@
    }

    pub fn as_str(&self) -> (r: &str)
        ensures
            r@ == self.source(),
    {
        self.text.as_str()
    }
}

/// Whether `regex::Regex::is_match`, of what `regex::Regex::new` makes of the
/// pattern, finds it anywhere in the text.
pub uninterp spec fn regex_found(pattern: Seq<char>, text: Seq<char>) -> bool;

/// `regex::Regex::new` of the crate regex: the pattern compiled, or the text of
/// the error where it is refused. Which patterns are refused, and in what words,
/// is left unsaid: beside the syntax there is a limit on the compiled size, which
/// is measured in the machine's own sizes.
#[verifier::external_body]
pub(crate) fn compile(pattern: &str) -> (r: Result<Pattern, String>)
    ensures
        r matches Ok(p) ==> p.source() == pattern@,
{
    match regex::Regex::new(pattern) {
        Ok(re) => Ok(Pattern { re, text: pattern.to_string() }),
        Err(e) => Err(e.to_string()),
    }
}

/// `regex::Regex::is_match` of the crate regex: whether the compiled pattern is
/// found anywhere in the text.
#[verifier::external_body]
pub(crate) fn is_match(pattern: &Pattern, text: &str) -> (r: bool)
    ensures
        r == regex_found(pattern.source(), text@),
{
    pattern.re.is_match(text)
}

} // verus!
