//! Compiled regular expressions, as the commands and addresses use them.
//!
//! Matching and replacing are done by the `regex` crate. What those calls
//! return is named by the uninterpreted functions below: the library's
//! contracts speak of those names and never of how a pattern matches.
use vstd::prelude::*;

verus! {

/// `regex::Regex`, carried as an opaque value.
#[verifier::external_type_specification]
#[verifier::external_body]
pub struct ExRegex(regex::Regex);

/// `regex::Error`, the error of `regex::Regex::new`, carried as an opaque value.
#[verifier::external_type_specification]
#[verifier::external_body]
pub struct ExRegexError(regex::Error);

/// Whether `regex::Regex::new` accepts the pattern text.
pub uninterp spec fn regex_compiles(pattern: Seq<char>) -> bool;

/// Whether the pattern matches somewhere in the text.
pub uninterp spec fn regex_finds(pattern: Seq<char>, text: Seq<char>) -> bool;

/// The text with every non-overlapping match of the pattern replaced by
/// `rep`, taken literally.
pub uninterp spec fn regex_replaced(pattern: Seq<char>, text: Seq<char>, rep: Seq<char>) -> Seq<char>;

/// A regular expression together with the text it was compiled from.
///
/// Its view is that text. A `Pattern` is only ever built by
/// [`Pattern::new`], so the compiled form always belongs to the text.
#[derive(Debug)]
pub struct Pattern {
    source: String,
    re: regex::Regex,
}

impl View for Pattern {
    type V = Seq<char>;

    closed spec fn view(&self) -> Seq<char> {
        self.source@
    }
}

/// Relies on `regex::Regex::new`: it accepts or refuses a pattern by its
/// text alone, and the compiled regex is kept beside that text.
#[verifier::external_body]
fn compile_regex(src: &str) -> (r: Result<Pattern, regex::Error>)
    ensures
        r is Ok <==> regex_compiles(src@),
        r matches Ok(p) ==> p@ == src@,
{
    match regex::Regex::new(src) {
        Ok(re) => Ok(Pattern { source: src.to_string(), re }),
        Err(e) => Err(e),
    }
}

/// Relies on `regex::Regex::is_match`: true iff the regex matches anywhere
/// in the text.
#[verifier::external_body]
pub(crate) fn regex_is_match(p: &Pattern, text: &str) -> (r: bool)
    ensures
        r == regex_finds(p@, text@),
{
    p.re.is_match(text)
}

/// Relies on `regex::Regex::replace_all` with `regex::NoExpand`: every
/// non-overlapping match is replaced by `rep` as it stands, and a text with
/// no match comes back unchanged.
#[verifier::external_body]
pub(crate) fn regex_replace_all(p: &Pattern, text: &str, rep: &str) -> (r: String)
    ensures
        r@ == regex_replaced(p@, text@, rep@),
        !regex_finds(p@, text@) ==> r@ == text@,
{
    p.re.replace_all(text, regex::NoExpand(rep)).into_owned()
}

impl Pattern {
    /// Compiles `src`; `None` when the regex crate refuses it.
    pub fn new(src: &str) -> (r: Option<Pattern>)
        ensures
            r is Some <==> regex_compiles(src@),
            r matches Some(p) ==> p@ == src@,
    {
        match compile_regex(src) {
            Ok(p) => Some(p),
            Err(_) => None,
        }
    }

    /// The text the pattern was compiled from.
    pub fn as_str(&self) -> (r: &str)
        ensures
            r@ == self@,
    {
        self.source.as_str()
    }

    /// Whether two patterns were compiled from the same text.
    pub fn same_source(&self, other: &Pattern) -> (r: bool)
        ensures
            r == (self@ == other@),
    {
        self.source == other.source
    }

    /// Whether the pattern matches anywhere in `text`.
    pub fn is_match(&self, text: &str) -> (r: bool)
        ensures
            r == regex_finds(self@, text@),
    {
        regex_is_match(self, text)
    }
}

} // verus!
