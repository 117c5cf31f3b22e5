//! Regular expressions for the filter functions, held behind a compiled
//! handle whose pattern the contracts can speak of.

use vstd::prelude::*;
use crate::error::Error;

verus! {

#[verifier::external_type_specification]
#[verifier::external_body]
pub struct ExRegex(regex::Regex);

/// Whether these bytes are valid UTF-8 and `regex::Regex::new` accepts
/// them as a pattern; compilation is deterministic in the pattern.
pub uninterp spec fn regex_valid(pattern: Seq<u8>) -> bool;

/// What `regex::Regex::is_match` answers for this pattern on this text,
/// both read as UTF-8; it depends on the pattern and the text alone, and
/// is false for text that is not valid UTF-8.
pub uninterp spec fn regex_search(pattern: Seq<u8>, text: Seq<u8>) -> bool;

/// A compiled regular expression together with the pattern it was compiled
/// from; the two never part, so the contracts can name the pattern.
#[derive(Debug)]
pub struct CompiledRegex {
    pattern: Vec<u8>,
    compiled: regex::Regex,
}

impl CompiledRegex {
    /// The pattern this expression was compiled from, as UTF-8 bytes.
    pub closed spec fn spec_pattern(&self) -> Seq<u8> {
        self.pattern@
    }

    /// Relies on regex::Regex::new: it accepts a pattern or reports an
    /// error deterministically in the pattern, and the compiled expression
    /// matches as that pattern prescribes.  Pattern bytes that are not
    /// valid UTF-8 are not a pattern.
    #[verifier::external_body]
    pub fn compile(pattern: &[u8]) -> (r: Result<CompiledRegex, Error>)
        ensures
            r is Ok <==> regex_valid(pattern@),
            r matches Ok(c) ==> c.spec_pattern() == pattern@,
            r matches Err(e) ==> e is Conversion,
    {
        match core::str::from_utf8(pattern) {
            Ok(s) => match regex::Regex::new(s) {
                Ok(compiled) => Ok(
                    CompiledRegex { pattern: pattern.to_vec(), compiled },
                ),
                Err(e) => Err(Error::Conversion(format!("invalid regex: {e}"))),
            },
            Err(e) => Err(Error::Conversion(format!("invalid regex: {e}"))),
        }
    }

    /// Relies on regex::Regex::is_match: whether the expression matches
    /// somewhere in the text depends on the pattern and the text alone.
    /// Text that is not valid UTF-8 matches nothing.
    #[verifier::external_body]
    pub fn is_match(&self, text: &Vec<u8>) -> (r: bool)
        ensures
            r == regex_search(self.spec_pattern(), text@),
    {
        match core::str::from_utf8(text.as_slice()) {
            Ok(s) => self.compiled.is_match(s),
            Err(_) => false,
        }
    }

    /// The pattern, for a caller that compares two expressions.
    pub fn pattern(&self) -> (r: &Vec<u8>)
        ensures
            r@ == self.spec_pattern(),
    {
        &self.pattern
    }
}

} // verus!
