//! The filter evaluator: decides whether a candidate class name should be
//! parsed at all. Polymorphic over an "always accept" variant and a
//! pattern-match variant backed by an outside regex engine.

use vstd::prelude::*;
use crate::errors::ScanError;

verus! {

/// What matching `pattern` anywhere in `name` yields: `None` when the pattern
/// does not compile, otherwise `Some` of the match verdict. The result depends
/// on the two strings alone.
pub uninterp spec fn pattern_match(pattern: Seq<char>, name: Seq<char>) -> Option<bool>;

/// Relies on `regex::Regex::new` and `regex::Regex::is_match`: compiling a
/// pattern fails or succeeds depending on the pattern text alone, and a
/// compiled pattern matches or not depending on the pattern and the haystack
/// alone, so the combined outcome is a function of the two strings.
#[verifier::external_body]
fn regex_match(pattern: &str, name: &str) -> (r: Option<bool>)
    ensures
        r == pattern_match(pattern@, name@),
{
    regex::Regex::new(pattern).ok().map(|re| re.is_match(name))
}

/// The pattern-match filter variant: holds an optional pattern; a candidate
/// name is accepted iff the pattern matches anywhere in the name. Absence of
/// a configured pattern rejects every name.
pub struct RegexEvaluator {
    class_name_regex: Option<String>,
}

impl RegexEvaluator {
    /// The configured pattern, if any.
    pub closed spec fn pattern(&self) -> Option<Seq<char>> {
        match self.class_name_regex {
            Option::Some(p) => Option::Some(p@),
            Option::None => Option::None,
        }
    }

    /// What this filter answers for `name`: `None` stands for an evaluation
    /// error (a pattern that does not compile).
    pub open spec fn spec_accepts(&self, name: Seq<char>) -> Option<bool> {
        match self.pattern() {
            Option::None => Option::Some(false),
            Option::Some(p) => pattern_match(p, name),
        }
    }

    pub fn new(class_name_regex: Option<String>) -> (e: RegexEvaluator)
        ensures
            class_name_regex matches Some(p) ==> e.pattern() == Some(p@),
            class_name_regex is None ==> e.pattern() is None,
    {
        RegexEvaluator { class_name_regex }
    }

    /// Accept `class_name` iff the configured pattern matches anywhere in it;
    /// with no pattern configured, reject it. A pattern that does not compile
    /// is a fatal evaluation error.
    pub fn evaluate_if_class_needed(&self, class_name: &str) -> (r: Result<
        bool,
        ScanError,
    >)
        ensures
            r matches Ok(b) ==> self.spec_accepts(class_name@) == Some(b),
            r matches Err(e) ==> self.spec_accepts(class_name@) is None
                && e == ScanError::InvalidPattern,
            r is Ok <==> self.spec_accepts(class_name@) is Some,
    {
        match &self.class_name_regex {
            Option::None => Ok(false),
            Option::Some(p) => match regex_match(p.as_str(), class_name) {
                Option::Some(b) => Ok(b),
                Option::None => Err(ScanError::InvalidPattern),
            },
        }
    }
}

/// The filter evaluator, chosen once at startup: accept every name, or defer
/// to a pattern.
pub enum NameFilter {
    AcceptAll,
    Pattern(RegexEvaluator),
}

impl NameFilter {
    /// What this filter answers for `name`: `None` stands for a fatal
    /// evaluation error.
    pub open spec fn spec_accepts(&self, name: Seq<char>) -> Option<bool> {
        match self {
            NameFilter::AcceptAll => Option::Some(true),
            NameFilter::Pattern(e) => e.spec_accepts(name),
        }
    }

    /// Decide whether a candidate class name should be parsed. The decision
    /// depends only on the name string; there is no side effect on the report.
    pub fn accepts(&self, name: &str) -> (r: Result<bool, ScanError>)
        ensures
            r matches Ok(b) ==> self.spec_accepts(name@) == Some(b),
            r matches Err(e) ==> self.spec_accepts(name@) is None
                && e == ScanError::InvalidPattern,
            r is Ok <==> self.spec_accepts(name@) is Some,
    {
        match self {
            NameFilter::AcceptAll => Ok(true),
            NameFilter::Pattern(e) => e.evaluate_if_class_needed(name),
        }
    }
}

/// The accept-all filter accepts every candidate name and never fails.
pub proof fn lemma_accept_all_accepts_every_name(name: Seq<char>)
    ensures
        NameFilter::AcceptAll.spec_accepts(name) == Some(true),
{
}

} // verus!
