//! The one outside capability the engine driver leans on: unanchored
//! regular-expression search over a line of engine output.
use vstd::prelude::*;

verus! {

#[verifier::external_type_specification]
#[verifier::external_body]
pub struct ExRegex(regex::Regex);

/// Whether the regular expression written as `pattern` matches anywhere in
/// `text`. The search is a function of the two texts alone.
pub uninterp spec fn regex_matches(pattern: Seq<char>, text: Seq<char>) -> bool;

/// A compiled search pattern, remembering the text it was compiled from.
pub struct Pattern {
    re: regex::Regex,
    src: Ghost<Seq<char>>,
}

impl Pattern {
    /// The pattern text this value was compiled from.
    pub closed spec fn spec_src(&self) -> Seq<char> {
        self.src@
    }

    /// Relies on `regex::Regex::new`: compiles the pattern, or reports
    /// nothing where the text is no valid pattern.
    #[verifier::external_body]
    pub fn compile(pattern: &str) -> (r: Option<Pattern>)
        ensures
            r matches Some(p) ==> p.spec_src() == pattern@,
    {
        match regex::Regex::new(pattern) {
            Result::Ok(re) => Some(Pattern { re, src: Ghost(pattern@) }),
            Result::Err(_) => None,
        }
    }

    /// Relies on `regex::Regex::is_match`: an unanchored search over `text`,
    /// deterministic in the pattern and the text.
    #[verifier::external_body]
    pub fn is_match(&self, text: &str) -> (r: bool)
        ensures
            r == regex_matches(self.spec_src(), text@),
    {
        self.re.is_match(text)
    }
}

} // verus!
