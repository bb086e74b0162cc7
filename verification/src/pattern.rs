//! Patterns of URLs, which are regular expressions of the `regex` crate.

use vstd::prelude::*;

verus! {

/// Whether the `regex` crate accepts a pattern.
pub uninterp spec fn regex_compiles(pattern: Seq<char>) -> bool;

/// Whether a pattern matches somewhere in a text.
pub uninterp spec fn regex_is_match(pattern: Seq<char>, text: Seq<char>) -> bool;

/// Compiles a pattern with `regex::Regex::new`. Trusted: whether it succeeds is a function of the
/// pattern alone. Nothing is said of the message that comes with a failure.
#[verifier::external_body]
fn compile(pattern: &str) -> (r: Result<(), String>)
    ensures
        r is Ok == regex_compiles(pattern@),
{
    match regex::Regex::new(pattern) {
        Ok(_) => Ok(()),
        Err(error) => Err(error.to_string()),
    }
}

/// Compiles a pattern and looks for it in a text with `regex::Regex::is_match`. Trusted: the
/// answer is a function of the pattern and the text alone.
#[verifier::external_body]
fn find(pattern: &str, text: &str) -> (r: bool)
    requires
        regex_compiles(pattern@),
    ensures
        r == regex_is_match(pattern@, text@),
{
    match regex::Regex::new(pattern) {
        Ok(regex) => regex.is_match(text),
        Err(_) => false,
    }
}

/// A pattern of URLs.
#[derive(Debug)]
pub struct Pattern {
    source: String,
}

impl View for Pattern {
    type V = Seq<char>;

    closed spec fn view(&self) -> Seq<char> {
        self.source@
    }
}

impl Pattern {
    #[verifier::type_invariant]
    spec fn inv(self) -> bool {
        regex_compiles(self.source@)
    }

    /// Reads a pattern. A text that is no regular expression comes back as the reason.
    pub fn new(source: &str) -> (r: Result<Pattern, String>)
        ensures
            match r {
                Ok(pattern) => pattern@ == source@ && regex_compiles(source@),
                Err(_) => !regex_compiles(source@),
            },
    {
        match compile(source) {
            Ok(_) => Ok(Pattern { source: source.to_owned() }),
            Err(message) => Err(message),
        }
    }

    /// Whether this pattern matches somewhere in `text`.
    pub fn is_match(&self, text: &str) -> (r: bool)
        ensures
            r == regex_is_match(self@, text@),
    {
        proof {
            use_type_invariant(self);
        }
        find(self.source.as_str(), text)
    }
}

impl Clone for Pattern {
    fn clone(&self) -> (r: Self)
        ensures
            r@ == self@,
    {
        proof {
            use_type_invariant(self);
        }
        Pattern { source: self.source.clone() }
    }
}

/// The pattern of a rule that may be missing.
pub open spec fn optional_pattern(rule: Option<Pattern>) -> Option<Seq<char>> {
    match rule {
        Some(pattern) => Some(pattern@),
        None => None,
    }
}

/// Whether a rule applies to a text: it is there, and its pattern matches.
pub open spec fn applies(rule: Option<Seq<char>>, text: Seq<char>) -> bool {
    rule matches Some(pattern) && regex_is_match(pattern, text)
}

/// Whether a rule applies to a text.
pub fn rule_applies(rule: &Option<Pattern>, text: &str) -> (r: bool)
    ensures
        r == applies(optional_pattern(*rule), text@),
{
    match rule {
        Some(pattern) => pattern.is_match(text),
        None => false,
    }
}

/// A rule applies where its pattern matches, and a rule that is missing nowhere.
pub proof fn law_rule_applies_where_pattern_matches(rule: Option<Pattern>, text: Seq<char>)
    ensures
        rule is None ==> !applies(optional_pattern(rule), text),
        rule matches Some(pattern) ==> applies(optional_pattern(rule), text) == regex_is_match(
            pattern@,
            text,
        ),
{
}

} // verus!
