//! Regular expressions, compiled and matched by the `regex` crate.
use vstd::prelude::*;

verus! {

/// `regex::Regex`, a compiled regular expression.
#[verifier::external_type_specification]
#[verifier::external_body]
pub struct ExRegex(regex::Regex);

/// Why a pattern did not compile.
#[derive(Debug)]
pub enum PatternError {
    /// A syntax error, with the message of the `regex` crate.
    Syntax(String),
    /// Any other failure, such as a pattern that compiles to too large a
    /// program.
    Other,
}

/// What a [`PatternError`] stands for.
pub enum Refusal {
    Syntax(Seq<char>),
    Other,
}

impl View for PatternError {
    type V = Refusal;

    open spec fn view(&self) -> Refusal {
        match self {
            PatternError::Syntax(message) => Refusal::Syntax(message@),
            PatternError::Other => Refusal::Other,
        }
    }
}

/// Why `regex::Regex::new` refuses the pattern `source`; `None` where it
/// compiles it.
pub uninterp spec fn refused(source: Seq<char>) -> Option<Refusal>;

/// Whether the regular expression `source` finds a match anywhere in
/// `haystack`, as `regex::Regex::is_match` tells. It has a meaning only where
/// `source` compiles.
pub uninterp spec fn finds(source: Seq<char>, haystack: Seq<char>) -> bool;

/// A compiled regular expression together with the text it was compiled
/// from. The only way to make one is [`Pattern::new`], so the two always
/// belong together.
#[derive(Debug)]
pub struct Pattern {
    source: String,
    regex: regex::Regex,
}

impl View for Pattern {
    type V = Seq<char>;

    closed spec fn view(&self) -> Seq<char> {
        self.source@
    }
}

impl Pattern {
    /// `regex::Regex::new`: compiles `source`. On success the pattern keeps
    /// `source` beside the compiled form; on failure the error of the
    /// `regex` crate is handed on, a syntax error with its message.
    #[verifier::external_body]
    pub(crate) fn compile(source: &str) -> (made: Result<Pattern, PatternError>)
        ensures
            match made {
                Ok(pattern) => refused(source@) is None && pattern@ == source@,
                Err(error) => refused(source@) == Some(error@),
            },
    {
        match regex::Regex::new(source) {
            Ok(regex) => Ok(Pattern { source: source.to_owned(), regex }),
            Err(regex::Error::Syntax(message)) => Err(PatternError::Syntax(message)),
            Err(_) => Err(PatternError::Other),
        }
    }

    /// `regex::Regex::is_match`: whether the pattern finds a match anywhere
    /// in `haystack`.
    #[verifier::external_body]
    pub(crate) fn find_in(&self, haystack: &str) -> (found: bool)
        ensures
            found == finds(self@, haystack@),
    {
        self.regex.is_match(haystack)
    }

    /// Compiles `source` as a regular expression.
    pub fn new(source: &str) -> (made: Result<Pattern, PatternError>)
        ensures
            match made {
                Ok(pattern) => refused(source@) is None && pattern@ == source@,
                Err(error) => refused(source@) == Some(error@),
            },
    {
        Pattern::compile(source)
    }

    /// Whether the pattern finds a match anywhere in `haystack`.
    pub fn is_match(&self, haystack: &str) -> (found: bool)
        ensures
            found == finds(self@, haystack@),
    {
        self.find_in(haystack)
    }

    /// The text that the pattern was compiled from.
    pub fn as_str(&self) -> (source: &str)
        ensures
            source@ == self@,
    {
        self.source.as_str()
    }
}

} // verus!
