use vstd::prelude::*;

verus! {

#[verifier::external_type_specification]
#[verifier::external_body]
pub struct ExRegex(regex::Regex);

/// Whether a pattern source compiles as a regular expression.
pub uninterp spec fn regex_compiles(src: Seq<char>) -> bool;

/// Whether a compiled pattern matches somewhere in a text.
pub uninterp spec fn regex_matches(src: Seq<char>, text: Seq<char>) -> bool;

/// The named capture groups a pattern defines, in order of appearance;
/// unnamed groups do not appear.
pub uninterp spec fn group_names_of(src: Seq<char>) -> Seq<Seq<char>>;

/// What a named group captures in the leftmost match of a pattern against
/// a text, if the pattern matches there and the group participates.
pub uninterp spec fn capture_of(src: Seq<char>, text: Seq<char>, name: Seq<char>) -> Option<
    Seq<char>,
>;

/// A compiled regular expression kept together with the source it was
/// compiled from, so that contracts can speak of the source.
pub(crate) struct CompiledPattern {
    regex: regex::Regex,
    source: String,
}

impl CompiledPattern {
    /// The pattern source this value was compiled from.
    pub closed spec fn src(&self) -> Seq<char> {
        self.source@
    }

    /// Relies on regex::Regex::new: whether a pattern source compiles is a
    /// function of the source alone.
    #[verifier::external_body]
    pub(crate) fn compile(src: &str) -> (r: Option<CompiledPattern>)
        ensures
            r matches Some(p) ==> regex_compiles(src@) && p.src() == src@,
            r is None ==> !regex_compiles(src@),
    {
        match regex::Regex::new(src) {
            Ok(re) => Some(CompiledPattern { regex: re, source: src.to_string() }),
            Err(_) => None,
        }
    }

    /// Relies on regex::Regex::is_match: whether a pattern matches is a
    /// function of the source and the text.
    #[verifier::external_body]
    pub(crate) fn is_match(&self, text: &str) -> (r: bool)
        ensures
            r == regex_matches(self.src(), text@),
    {
        self.regex.is_match(text)
    }

    /// Relies on regex::Regex::capture_names: the named groups of the
    /// pattern, in order; the entries for unnamed groups are dropped.
    #[verifier::external_body]
    pub(crate) fn group_names(&self) -> (r: Vec<String>)
        ensures
            r@.map_values(|s: String| s@) == group_names_of(self.src()),
    {
        let mut names = Vec::new();
        for entry in self.regex.capture_names() {
            match entry {
                Some(n) => names.push(n.to_string()),
                None => {},
            }
        }
        names
    }

    /// Relies on regex::Regex::captures and regex::Captures::name: the text
    /// a named group captures in the leftmost match, a function of the
    /// source, the text and the group name.
    #[verifier::external_body]
    pub(crate) fn capture(&self, text: &str, name: &str) -> (r: Option<String>)
        ensures
            r matches Some(v) ==> capture_of(self.src(), text@, name@) == Some(v@),
            r is None ==> capture_of(self.src(), text@, name@) is None,
    {
        match self.regex.captures(text) {
            Some(caps) => match caps.name(name) {
                Some(m) => Some(m.as_str().to_string()),
                None => None,
            },
            None => None,
        }
    }
}

} // verus!
