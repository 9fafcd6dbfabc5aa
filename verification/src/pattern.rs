//! The device-selection pattern: a compiled regular expression kept
//! together with its source text, so contracts can speak of the match
//! relation over the source.
use vstd::prelude::*;

verus! {

/// Declares regex::Regex to the verifier; it is only held inside Pattern.
#[verifier::external_type_specification]
#[verifier::external_body]
pub struct ExRegex(regex::Regex);

/// Whether the pattern text compiles as a regular expression. Depends on
/// the text alone.
pub uninterp spec fn regex_ok(pattern: Seq<u8>) -> bool;

/// Whether the pattern matches somewhere in the text. Depends on the
/// pattern and the text alone.
pub uninterp spec fn regex_match(pattern: Seq<u8>, text: Seq<u8>) -> bool;

/// A compiled selection pattern. The compiled expression is only ever
/// built beside its source text, so `is_match` answers for that source.
pub struct Pattern {
    re: regex::Regex,
    raw: Vec<u8>,
}

impl Pattern {
    /// The pattern's source bytes.
    pub closed spec fn source(&self) -> Seq<u8> {
        self.raw@
    }

    /// Relies on regex::Regex::new: it compiles exactly the valid
    /// patterns, deterministically in the pattern text.
    #[verifier::external_body]
    pub fn new(src: &Vec<u8>) -> (r: Option<Pattern>)
        ensures
            (r is Some) == regex_ok(src@),
            r matches Some(p) ==> p.source() == src@,
    {
        match regex::Regex::new(&String::from_utf8_lossy(src)) {
            Ok(re) => Some(Pattern { re, raw: src.clone() }),
            Err(_) => None,
        }
    }

    /// Relies on regex::Regex::is_match: deterministic in the pattern and
    /// the text it is asked about.
    #[verifier::external_body]
    pub(crate) fn is_match(&self, text: &Vec<u8>) -> (r: bool)
        ensures
            r == regex_match(self.source(), text@),
    {
        self.re.is_match(&String::from_utf8_lossy(text))
    }
}

} // verus!
