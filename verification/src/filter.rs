//! The exclusion filter: a compiled pattern that suppresses the records whose message
//! it matches.
//!
//! Patterns are compiled and matched by the `regex` crate. Which patterns are accepted and
//! which texts a pattern matches is the crate's to decide, and is spoken of by name.

use vstd::prelude::*;

verus! {

/// `regex::Regex`, a compiled pattern. What it holds is known only through the names
/// below.
#[verifier::external_type_specification]
#[verifier::external_body]
pub struct ExRegex(regex::Regex);

/// `regex::Error`, the refusal of a pattern. Nothing is known of what it holds.
#[verifier::external_type_specification]
#[verifier::external_body]
pub struct ExRegexError(regex::Error);

/// The pattern text that a compiled pattern holds, as `Regex::as_str` gives it.
pub uninterp spec fn pattern_of(regex: regex::Regex) -> Seq<char>;

/// Whether a compiled pattern matches somewhere in `text`, as `Regex::is_match` answers.
pub uninterp spec fn regex_matches(regex: regex::Regex, text: Seq<char>) -> bool;

/// Whether `Regex::new` accepts the pattern `pattern`. A pattern is refused for its syntax
/// or for the size of what it compiles to. The size is counted in the sizes of the
/// compiler's own types, so the answer is fixed for a build target and depends on nothing
/// but the pattern.
pub uninterp spec fn pattern_accepted(pattern: Seq<char>) -> bool;

/// Whether the pattern `pattern`, compiled by `Regex::new`, matches somewhere in `text`.
pub uninterp spec fn pattern_matches(pattern: Seq<char>, text: Seq<char>) -> bool;

/// `Regex::new`: compiles a pattern. It may refuse one, for its syntax or for its size;
/// which patterns it accepts depends on the pattern alone. A pattern that it accepts is
/// kept by the result as it was given, and what the result matches depends on the pattern
/// alone.
pub assume_specification[ regex::Regex::new ](re: &str) -> (r: Result<regex::Regex, regex::Error>)
    ensures
        r is Ok <==> pattern_accepted(re@),
        r matches Ok(regex) ==> pattern_of(regex) == re@,
        r matches Ok(regex) ==> forall|text: Seq<char>| #[trigger]
            regex_matches(regex, text) == pattern_matches(re@, text),
;

/// `Regex::as_str`: the pattern text that the compiled pattern holds.
pub assume_specification<'a>[ regex::Regex::as_str ](regex: &'a regex::Regex) -> (r: &'a str)
    ensures
        r@ == pattern_of(*regex),
;

/// `Regex::is_match`: whether the pattern matches anywhere in the haystack. The answer
/// depends on the compiled pattern and the haystack alone.
pub assume_specification[ regex::Regex::is_match ](regex: &regex::Regex, haystack: &str) -> (r:
    bool)
    ensures
        r == regex_matches(*regex, haystack@),
;

/// The reason that `Regex::new` gave for refusing a pattern, as the `Display` of
/// `regex::Error` writes it. Nothing is claimed of the text.
#[verifier::external_body]
fn refusal_text(error: &regex::Error) -> String {
    format!("{}", error)
}

/// Why a pattern could not be used.
#[derive(Debug)]
pub struct PatternError {
    pub reason: String,
}

/// A compiled exclusion pattern. Its view is the pattern text.
pub struct ExclusionFilter {
    regex: regex::Regex,
}

impl View for ExclusionFilter {
    type V = Seq<char>;

    closed spec fn view(&self) -> Seq<char> {
        pattern_of(self.regex)
    }
}

impl ExclusionFilter {
    /// Compiles `pattern`. There is a filter exactly for the patterns that the pattern
    /// compiler accepts; it holds the pattern as it was given and matches what the pattern
    /// as written matches.
    pub fn compile(pattern: &str) -> (r: Result<ExclusionFilter, PatternError>)
        ensures
            r is Ok <==> pattern_accepted(pattern@),
            r matches Ok(filter) ==> filter@ == pattern@ && filter.matches_as_written(),
    {
        Self::from_outcome(regex::Regex::new(pattern))
    }

    /// The filter that comes of what the pattern compiler returned: a compiled pattern is
    /// the filter, which holds its text and matches what it matches; a refusal is an
    /// error that gives the compiler's reason.
    pub fn from_outcome(outcome: Result<regex::Regex, regex::Error>) -> (r: Result<
        ExclusionFilter,
        PatternError,
    >)
        ensures
            match outcome {
                Ok(regex) => {
                    &&& r matches Ok(filter)
                    &&& filter@ == pattern_of(regex)
                    &&& forall|text: Seq<char>| #[trigger]
                        filter.matches(text) == regex_matches(regex, text)
                },
                Err(_) => r is Err,
            },
    {
        match outcome {
            Ok(regex) => Ok(ExclusionFilter { regex }),
            Err(error) => Err(PatternError { reason: refusal_text(&error) }),
        }
    }

    /// The pattern text.
    pub fn pattern(&self) -> (r: &str)
        ensures
            r@ == self@,
    {
        self.regex.as_str()
    }

    /// Whether the pattern matches somewhere in `text`.
    pub closed spec fn matches(&self, text: Seq<char>) -> bool {
        regex_matches(self.regex, text)
    }

    /// Whether the filter matches what its pattern text matches when it is compiled as
    /// it is written, without further options.
    pub open spec fn matches_as_written(&self) -> bool {
        forall|text: Seq<char>| #[trigger] self.matches(text) == pattern_matches(self@, text)
    }

    /// Whether the filter suppresses a record with this message: the pattern matches
    /// somewhere in it.
    pub fn excludes(&self, message: &str) -> (r: bool)
        ensures
            r == self.matches(message@),
    {
        self.regex.is_match(message)
    }
}

/// Two filters with one pattern text, both matching as the pattern is written, suppress
/// the same messages.
pub proof fn lemma_same_pattern_same_answers(
    first: ExclusionFilter,
    second: ExclusionFilter,
    message: Seq<char>,
)
    requires
        first.matches_as_written(),
        second.matches_as_written(),
        first@ == second@,
    ensures
        first.matches(message) == second.matches(message),
{
}

} // verus!
