//! The compiled search pattern: a regular expression kept beside the
//! pattern text it was compiled from.  The engine only asks one thing of
//! it: whether it finds a match anywhere in a given string.

use vstd::prelude::*;

verus! {

#[verifier::external_type_specification]
#[verifier::external_body]
pub struct ExRegex(regex::Regex);

/// Whether the regular expression written `pattern` finds a match
/// anywhere in `text`: the name for what `regex::Regex::is_match`
/// returns, which depends on the pattern and the text alone.
pub uninterp spec fn regex_match(pattern: Seq<char>, text: Seq<char>) -> bool;

/// Whether `pattern` compiles as a regular expression: the name for
/// whether `regex::Regex::new` returns Ok, which depends on the pattern
/// text alone (its syntax, and the default size limit).
pub uninterp spec fn regex_compiles(pattern: Seq<char>) -> bool;

/// A compiled regular expression and the pattern text it was compiled
/// from.  Only `compile` builds one, so the two fields always belong
/// together.
pub struct CompiledPattern {
    pattern: String,
    regex: regex::Regex,
}

impl CompiledPattern {
    /// The pattern text the expression was compiled from.
    pub closed spec fn pattern_view(&self) -> Seq<char> {
        self.pattern@
    }

    /// Relies on regex::Regex::new: whether the pattern text compiles
    /// depends on the text alone, and on failure the call reports why.
    /// The compiled expression is kept beside the text it came from.
    #[verifier::external_body]
    pub(crate) fn compile(pattern: String) -> (r: Result<CompiledPattern, String>)
        ensures
            r is Ok <==> regex_compiles(pattern@),
            r matches Ok(c) ==> c.pattern_view() == pattern@,
    {
        match regex::Regex::new(&pattern) {
            Ok(re) => Ok(CompiledPattern { pattern, regex: re }),
            Err(e) => Err(e.to_string()),
        }
    }

    /// Relies on regex::Regex::is_match: true exactly when the
    /// expression matches somewhere in `text`, which depends on the
    /// pattern it was compiled from and on the text alone.
    #[verifier::external_body]
    pub(crate) fn is_match(&self, text: &str) -> (r: bool)
        ensures
            r == regex_match(self.pattern_view(), text@),
    {
        self.regex.is_match(text)
    }

    /// The pattern text, as numeric mode reads it.
    pub fn pattern_str(&self) -> (r: &str)
        ensures
            r@ == self.pattern_view(),
    {
        self.pattern.as_str()
    }
}

} // verus!
