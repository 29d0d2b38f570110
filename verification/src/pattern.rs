//! Regular expressions, through the `regex` crate.
//!
//! A [`CompiledPattern`] pairs a compiled `regex::Regex` with the pattern text it was
//! compiled from, and a [`CompileError`] pairs the `regex::Error` that `Regex::new` returned
//! with the pattern text it refused; only [`compile`] makes either, so every claim below
//! about them is a claim about `Regex::new` applied to that text.

use vstd::prelude::*;

verus! {

#[verifier::external_type_specification]
#[verifier::external_body]
pub struct ExRegex(regex::Regex);

#[verifier::external_type_specification]
#[verifier::external_body]
pub struct ExRegexError(regex::Error);

/// Whether `regex::Regex::new` accepts `pattern` (with the crate's default limits).
pub uninterp spec fn pattern_compiles(pattern: Seq<char>) -> bool;

/// What `Regex::replace_all(haystack, replacement)` returns for the regex compiled from
/// `pattern`, with `$name` / `${name}` references in `replacement` expanded.
pub uninterp spec fn regex_replace_all(
    pattern: Seq<char>,
    haystack: Seq<char>,
    replacement: Seq<char>,
) -> Seq<char>;

/// What `Regex::is_match(haystack)` returns for the regex compiled from `pattern`.
pub uninterp spec fn regex_is_match(pattern: Seq<char>, haystack: Seq<char>) -> bool;

/// The `Display` text of the error that `regex::Regex::new` returns for `pattern`.
pub uninterp spec fn regex_error_text(pattern: Seq<char>) -> Seq<char>;

/// A regex compiled from a known pattern text.
pub struct CompiledPattern {
    re: regex::Regex,
    source: Ghost<Seq<char>>,
}

impl CompiledPattern {
    /// The pattern text this regex was compiled from.
    pub closed spec fn source(&self) -> Seq<char> {
        self.source@
    }
}

/// The error `regex::Regex::new` returned for a known pattern text.
pub struct CompileError {
    err: regex::Error,
    source: Ghost<Seq<char>>,
}

impl CompileError {
    /// The pattern text that failed to compile.
    pub closed spec fn source(&self) -> Seq<char> {
        self.source@
    }
}

/// Compiles `pattern` with `regex::Regex::new`.
///
/// Trusted: the result is `Ok` exactly when the pattern compiles (a property of the
/// pattern text alone); an `Ok` value and an `Err` value both remember `pattern` as their
/// source.
#[verifier::external_body]
pub fn compile(pattern: &str) -> (r: Result<CompiledPattern, CompileError>)
    ensures
        r is Ok <==> pattern_compiles(pattern@),
        r matches Ok(c) ==> c.source() == pattern@,
        r matches Err(e) ==> e.source() == pattern@,
{
    match regex::Regex::new(pattern) {
        Ok(re) => Ok(CompiledPattern { re, source: Ghost(pattern@) }),
        Err(err) => Err(CompileError { err, source: Ghost(pattern@) }),
    }
}

/// `Regex::replace_all` with a `&str` replacement, made into an owned `String`.
///
/// Trusted: the result is the named value [`regex_replace_all`] of the pattern, haystack and
/// replacement; how matches are found and replacements expanded is not stated.
#[verifier::external_body]
pub fn replace_all(re: &CompiledPattern, haystack: &str, replacement: &str) -> (r: String)
    ensures
        r@ == regex_replace_all(re.source(), haystack@, replacement@),
{
    re.re.replace_all(haystack, replacement).into_owned()
}

/// `Regex::is_match`.
///
/// Trusted: the result is the named value [`regex_is_match`] of the pattern and haystack;
/// what the regex matches is not stated.
#[verifier::external_body]
pub fn is_match(re: &CompiledPattern, haystack: &str) -> (b: bool)
    ensures
        b == regex_is_match(re.source(), haystack@),
{
    re.re.is_match(haystack)
}

/// The `Display` text (`to_string`) of the error that `Regex::new` returned.
///
/// Trusted: the text is the named value [`regex_error_text`] of the refused pattern, and it
/// is not empty. `Regex::new` returns either `CompiledTooBig`, written as "Compiled regex
/// exceeds size limit of .. bytes.", or `Syntax` holding the text of a build error:
/// a `regex-syntax` parse or translation error, written from "regex parse error:" on, or
/// else the build error's own text, "error parsing pattern .." or "error building NFA".
/// What the text says beyond that is left unsaid.
#[verifier::external_body]
pub fn error_message(e: &CompileError) -> (m: String)
    ensures
        m@ == regex_error_text(e.source()),
        m@.len() > 0,
{
    e.err.to_string()
}

} // verus!
