//! Regular expressions over lines of text, compiled by the `regex` crate.

use vstd::prelude::*;
use crate::text::index_of_sub;

verus! {

#[verifier::external_type_specification]
#[verifier::external_body]
pub struct ExRegex(regex::Regex);

#[verifier::external_type_specification]
#[verifier::external_body]
pub struct ExRegexError(regex::Error);

/// Whether `regex::Regex::new` accepts the expression `source`.
pub uninterp spec fn regex_compiles(source: Seq<char>) -> bool;

/// Whether the expression `source`, compiled by `regex::Regex::new`,
/// matches somewhere in `text`.
pub uninterp spec fn regex_finds(source: Seq<char>, text: Seq<char>) -> bool;

/// The text that `regex::escape` makes of `text`: an expression matching
/// `text` literally.
pub uninterp spec fn regex_escaped(text: Seq<char>) -> Seq<char>;

/// The message of a refused expression (the `Display` of `regex::Error`).
pub uninterp spec fn regex_error_message(source: Seq<char>) -> Seq<char>;

/// `regex::Regex::new`: `Ok` exactly when the expression compiles, else
/// the error whose message is named by `regex_error_message`.
#[verifier::external_body]
fn compile(source: &str) -> (r: Result<regex::Regex, String>)
    ensures
        r is Ok <==> regex_compiles(source@),
        r matches Err(m) ==> m@ == regex_error_message(source@),
{
    regex::Regex::new(source).map_err(|e| e.to_string())
}

/// `regex::escape`: its documentation promises that the text it returns
/// may be used as a literal in a regular expression. Whether that text
/// compiles is left open (a long one passes the compiler's size limit);
/// where it compiles, it matches exactly the texts that hold `text`.
#[verifier::external_body]
pub(crate) fn escape(text: &str) -> (r: String)
    ensures
        r@ == regex_escaped(text@),
        regex_compiles(r@) ==> forall|s: Seq<char>| #[trigger] regex_finds(r@, s) <==> index_of_sub(s, text@) is Some,
{
    regex::escape(text)
}

/// A compiled regular expression together with its source text.
pub struct LinePattern {
    source: String,
    regex: regex::Regex,
}

impl LinePattern {
    /// The expression this pattern was compiled from.
    pub closed spec fn source(&self) -> Seq<char> {
        self.source@
    }

    /// Compile `source`; the error carries the compiler's message.
    pub fn new(source: &str) -> (r: Result<LinePattern, String>)
        ensures
            r is Ok <==> regex_compiles(source@),
            r matches Ok(p) ==> p.source() == source@,
            r matches Err(m) ==> m@ == regex_error_message(source@),
    {
        match compile(source) {
            Ok(regex) => Ok(LinePattern { source: source.to_string(), regex }),
            Err(m) => Err(m),
        }
    }

    /// `regex::Regex::is_match`: whether the pattern matches somewhere in
    /// `text`.
    #[verifier::external_body]
    fn regex_match(&self, text: &str) -> (b: bool)
        ensures
            b == regex_finds(self.source(), text@),
    {
        self.regex.is_match(text)
    }

    /// Whether the pattern matches somewhere in `text`.
    pub fn is_match(&self, text: &str) -> (b: bool)
        ensures
            b == regex_finds(self.source(), text@),
    {
        self.regex_match(text)
    }
}

#[verifier::external_type_specification]
#[verifier::external_body]
pub struct ExGlobPattern(glob::Pattern);

/// Whether `glob::Pattern::new` accepts the shell pattern `source`.
pub uninterp spec fn glob_compiles(source: Seq<char>) -> bool;

/// Whether the shell pattern `source` matches the whole of `name`.
pub uninterp spec fn glob_matches(source: Seq<char>, name: Seq<char>) -> bool;

/// The message of a refused shell pattern (the `Display` of
/// `glob::PatternError`).
pub uninterp spec fn glob_error_message(source: Seq<char>) -> Seq<char>;

/// `glob::Pattern::new`: `Ok` exactly when the pattern compiles, else the
/// error whose message is named by `glob_error_message`.
#[verifier::external_body]
fn compile_glob(source: &str) -> (r: Result<glob::Pattern, String>)
    ensures
        r is Ok <==> glob_compiles(source@),
        r matches Err(m) ==> m@ == glob_error_message(source@),
{
    glob::Pattern::new(source).map_err(|e| e.to_string())
}

/// A compiled shell pattern for file names, with its source text.
pub struct NamePattern {
    source: String,
    glob: glob::Pattern,
}

impl NamePattern {
    /// The shell pattern this was compiled from.
    pub closed spec fn source(&self) -> Seq<char> {
        self.source@
    }

    /// Compile `source`; the error carries the compiler's message.
    pub fn new(source: &str) -> (r: Result<NamePattern, String>)
        ensures
            r is Ok <==> glob_compiles(source@),
            r matches Ok(p) ==> p.source() == source@,
            r matches Err(m) ==> m@ == glob_error_message(source@),
    {
        match compile_glob(source) {
            Ok(glob) => Ok(NamePattern { source: source.to_string(), glob }),
            Err(m) => Err(m),
        }
    }

    /// `glob::Pattern::matches`: whether the pattern matches all of `name`.
    #[verifier::external_body]
    fn glob_match(&self, name: &str) -> (b: bool)
        ensures
            b == glob_matches(self.source(), name@),
    {
        self.glob.matches(name)
    }

    /// Whether a file named `name` is selected by the pattern.
    pub fn selects(&self, name: &str) -> (b: bool)
        ensures
            b == glob_matches(self.source(), name@),
    {
        self.glob_match(name)
    }
}

} // verus!
