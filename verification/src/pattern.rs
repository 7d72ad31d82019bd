//! Regular expressions as preview-name patterns: compiled once, when the
//! names are set, and then asked of each file name.

use vstd::prelude::*;

verus! {

#[verifier::external_type_specification]
#[verifier::external_body]
pub struct ExRegex(regex::Regex);

/// Whether `regex::Regex::new` accepts a pattern's source.
pub uninterp spec fn pattern_compiles(source: Seq<char>) -> bool;

/// Whether the regular expression that `regex::Regex::new` compiles from
/// `source` finds a match somewhere in `text`.
pub uninterp spec fn pattern_accepts(source: Seq<char>, text: Seq<char>) -> bool;

/// The texts in which a compiled regular expression finds a match, as
/// `regex::Regex::is_match` reports it.
pub uninterp spec fn accepted_by(re: regex::Regex) -> Set<Seq<char>>;

/// Calls `regex::Regex::new`. `None` says that the source did not compile;
/// otherwise the result is the compiled expression, which accepts what the
/// expression compiled from this source accepts.
#[verifier::external_body]
fn compile(source: &str) -> (r: Option<regex::Regex>)
    ensures
        match r {
            Some(re) => pattern_compiles(source@) && forall|text: Seq<char>|
                #[trigger] accepted_by(re).contains(text) == pattern_accepts(source@, text),
            None => !pattern_compiles(source@),
        },
{
    regex::Regex::new(source).ok()
}

/// Calls `regex::Regex::is_match`: whether the expression finds a match
/// somewhere in the text.
#[verifier::external_body]
fn is_match(re: &regex::Regex, text: &str) -> (r: bool)
    ensures
        r == accepted_by(*re).contains(text@),
{
    re.is_match(text)
}

/// The source of a regular expression together with what it compiled to.
/// The expression is compiled once, when the value is made.
#[derive(Debug)]
pub struct CompiledPattern {
    source: String,
    regex: Option<regex::Regex>,
}

impl View for CompiledPattern {
    type V = Seq<char>;

    closed spec fn view(&self) -> Seq<char> {
        self.source@
    }
}

impl CompiledPattern {
    #[verifier::type_invariant]
    spec fn compiled_from_source(&self) -> bool {
        match self.regex {
            Some(re) => pattern_compiles(self.source@) && forall|text: Seq<char>|
                #[trigger] accepted_by(re).contains(text) == pattern_accepts(self.source@, text),
            None => !pattern_compiles(self.source@),
        }
    }

    /// Compiles a source. A source that does not compile gives a pattern
    /// that no file name hits.
    pub fn new(source: &str) -> (r: CompiledPattern)
        ensures
            r@ == source@,
    {
        CompiledPattern { source: source.to_owned(), regex: compile(source) }
    }

    /// The source of the pattern.
    pub fn source(&self) -> (r: &String)
        ensures
            r@ == self@,
    {
        &self.source
    }

    /// Whether the source compiled.
    pub fn compiles(&self) -> (r: bool)
        ensures
            r == pattern_compiles(self@),
    {
        proof {
            use_type_invariant(self);
        }
        self.regex.is_some()
    }

    /// Whether the pattern compiled and finds a match somewhere in `text`.
    pub fn hits(&self, text: &str) -> (r: bool)
        ensures
            r == (pattern_compiles(self@) && pattern_accepts(self@, text@)),
    {
        proof {
            use_type_invariant(self);
        }
        match &self.regex {
            Some(re) => is_match(re, text),
            None => false,
        }
    }
}

} // verus!
