//! Compiled regular expressions, backed by the `regex` crate.
//!
//! What a regular expression matches is left to the `regex` crate: the
//! contracts here speak of it through the names below, each applied to the
//! pattern's source text (and the haystack).

use vstd::prelude::*;
use regex::Regex;

verus! {

#[verifier::external_type_specification]
#[verifier::external_body]
pub struct ExRegex(Regex);

/// `Regex::new`: `None` when `pattern` compiles, otherwise the text of the
/// error it reports.
pub uninterp spec fn regex_compile_error(pattern: Seq<char>) -> Option<Seq<char>>;

/// `Regex::is_match`: whether `pattern` matches anywhere in `haystack`.
pub uninterp spec fn regex_is_match(pattern: Seq<char>, haystack: Seq<char>) -> bool;

/// A regular expression together with the source text it was compiled
/// from. The only way to make one is [`Pattern::new`], which compiles
/// exactly `source`; the view of a pattern is that source text.
#[derive(Debug)]
pub struct Pattern {
    source: String,
    compiled: Regex,
}

impl View for Pattern {
    type V = Seq<char>;

    closed spec fn view(&self) -> Seq<char> {
        self.source@
    }
}

/// Compiles `pattern` (`Regex::new`), with the error rendered as text.
#[verifier::external_body]
fn compile_regex(pattern: &str) -> (r: Result<Regex, String>)
    ensures
        match r {
            Ok(_) => regex_compile_error(pattern@) is None,
            Err(m) => regex_compile_error(pattern@) == Some(m@),
        },
{
    Regex::new(pattern).map_err(|e| e.to_string())
}

impl Pattern {
    /// Compiles `source`; `Err` carries the compiler's message exactly when
    /// the pattern does not compile.
    pub fn new(source: &str) -> (r: Result<Pattern, String>)
        ensures
            match r {
                Ok(p) => p@ == source@ && regex_compile_error(source@) is None,
                Err(m) => regex_compile_error(source@) == Some(m@),
            },
    {
        match compile_regex(source) {
            Ok(compiled) => Ok(Pattern { source: String::from_str(source), compiled }),
            Err(m) => Err(m),
        }
    }

    /// The source text the pattern was compiled from.
    pub fn as_str(&self) -> (r: &str)
        ensures
            r@ == self@,
    {
        self.source.as_str()
    }
}

/// Whether `p` matches anywhere in `haystack` (`Regex::is_match`). The
/// regex in `p` is the one compiled from `p`'s source, so the result is the
/// one for that source.
#[verifier::external_body]
pub(crate) fn is_match(p: &Pattern, haystack: &str) -> (r: bool)
    ensures
        r == regex_is_match(p@, haystack@),
{
    p.compiled.is_match(haystack)
}

} // verus!
