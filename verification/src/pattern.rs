//! The content pattern: a regular expression, compiled once per run.
//!
//! Matching is the work of the `regex` crate. The library keeps the compiled
//! expression beside the text it was compiled from, and speaks of a search by
//! that text and the text searched.

use vstd::prelude::*;
use vstd::string::*;

verus! {

/// Trusted: the type `regex::Regex`, a compiled regular expression. The
/// verifier sees nothing of what it holds.
#[verifier::external_type_specification]
#[verifier::external_body]
pub struct ExRegex(regex::Regex);

/// Trusted: the type `regex::Error`, the refusal of a pattern. The verifier
/// sees nothing of what it holds.
#[verifier::external_type_specification]
#[verifier::external_body]
pub struct ExRegexError(regex::Error);

/// The byte offsets, start and end, of the first match in `haystack` of the
/// regular expression written as `pattern`, as `regex::Regex::find` reports
/// them; `None` where nothing matches.
pub uninterp spec fn first_match(pattern: Seq<char>, haystack: Seq<char>) -> Option<
    (usize, usize),
>;

/// Whether `regex::Regex::new` accepts `pattern`: it is valid by the crate's
/// syntax, and what it compiles to stays within the crate's default size
/// limit.
pub uninterp spec fn pattern_compiles(pattern: Seq<char>) -> bool;

/// A compiled content pattern.
///
/// `ContentPattern::compile` is the only way to make one, so `engine` is
/// always what `regex::Regex::new` made of `source`.
pub struct ContentPattern {
    source: String,
    engine: regex::Regex,
}

impl View for ContentPattern {
    type V = Seq<char>;

    /// The text of the pattern.
    closed spec fn view(&self) -> Seq<char> {
        self.source@
    }
}

/// Why a content pattern was refused.
#[derive(Debug, Clone, PartialEq, Eq)]
pub struct PatternError {
    /// What the regular-expression compiler said.
    pub message: String,
}

/// Trusted: calls `regex::Regex::new`. Whether it accepts a pattern is a
/// function of the pattern's text alone (its syntax, and the size of what it
/// compiles to against a fixed limit), named `pattern_compiles`. Nothing is
/// claimed of the engine or of the error.
#[verifier::external_body]
fn compile_engine(pattern: &str) -> (r: Result<regex::Regex, regex::Error>)
    ensures
        r is Ok <==> pattern_compiles(pattern@),
{
    regex::Regex::new(pattern)
}

/// Trusted: the text that `regex::Error` displays. Nothing is claimed of it.
#[verifier::external_body]
fn error_message(e: &regex::Error) -> (r: String) {
    e.to_string()
}

/// Trusted: calls `regex::Regex::find` on the pattern's engine and hands out
/// the offsets of the match. For an engine that `regex::Regex::new` made of
/// the pattern's text the result is a function of that text and of the
/// haystack, named `first_match`; the crate documents that a match's start is
/// never behind its end.
#[verifier::external_body]
pub(crate) fn find_first(pattern: &ContentPattern, haystack: &str) -> (r: Option<(usize, usize)>)
    ensures
        r == first_match(pattern@, haystack@),
        r matches Some(span) ==> span.0 <= span.1,
{
    match pattern.engine.find(haystack) {
        Some(m) => Some((m.start(), m.end())),
        None => None,
    }
}

/// The pattern for `source`, given what the compiler made of it: the compiled
/// pattern where it made an engine, else its refusal.
fn pattern_from(source: &str, compiled: Result<regex::Regex, regex::Error>) -> (r: Result<
    ContentPattern,
    PatternError,
>)
    ensures
        r is Ok <==> compiled is Ok,
        r matches Ok(p) ==> p@ == source@,
{
    match compiled {
        Ok(engine) => Ok(ContentPattern { source: source.to_owned(), engine }),
        Err(e) => Err(PatternError { message: error_message(&e) }),
    }
}

impl ContentPattern {
    /// Compiles `pattern`. It is refused exactly where the `regex` crate
    /// does not accept it; a compiled pattern keeps its text.
    pub fn compile(pattern: &str) -> (r: Result<ContentPattern, PatternError>)
        ensures
            r is Ok <==> pattern_compiles(pattern@),
            r matches Ok(p) ==> p@ == pattern@,
    {
        pattern_from(pattern, compile_engine(pattern))
    }

    /// The text of the pattern.
    pub fn as_str(&self) -> (r: &str)
        ensures
            r@ == self@,
    {
        self.source.as_str()
    }
}

} // verus!
