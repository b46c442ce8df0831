//! Regular expressions, as the `regex` crate compiles and runs them: a compiled pattern keeps
//! its source text, and what a search finds is named over that text.
use vstd::prelude::*;

verus! {

#[verifier::external_type_specification]
#[verifier::external_body]
pub struct ExRegex(regex::Regex);

/// Whether `regex::Regex::new` accepts the pattern (syntax and default size limit).
pub uninterp spec fn regex_compiles(pattern: Seq<char>) -> bool;

/// The text of the error `regex::Regex::new` reports for a pattern it refuses.
pub uninterp spec fn regex_error_text(pattern: Seq<char>) -> Seq<char>;

/// Whether the pattern matches somewhere in the text.
pub uninterp spec fn regex_matches(pattern: Seq<char>, text: Seq<char>) -> bool;

/// The text of the group called `name` in the leftmost-first match of the pattern, when the
/// pattern matches and that group took part in the match.
pub uninterp spec fn regex_named_group(pattern: Seq<char>, text: Seq<char>, name: Seq<char>) -> Option<
    Seq<char>,
>;

/// The text of group `index` in the leftmost-first match of the pattern, when the pattern
/// matches and that group exists and took part in the match.
pub uninterp spec fn regex_indexed_group(pattern: Seq<char>, text: Seq<char>, index: nat) -> Option<
    Seq<char>,
>;

/// The capture groups of the pattern in order, each with its name if it has one (the whole
/// match comes first, unnamed).
pub uninterp spec fn regex_capture_names(pattern: Seq<char>) -> Seq<Option<Seq<char>>>;

/// How `{:?}` writes a text: between double quotes, with `"`, `\` and the characters that
/// std's `Debug` for `str` escapes written as escapes (a `'` stays as it is).
pub uninterp spec fn debug_text(s: Seq<char>) -> Seq<char>;

/// A compiled regular expression together with the pattern it was compiled from.
pub struct CompiledPattern {
    text: String,
    re: regex::Regex,
}

/// The names of a list of optional texts.
pub open spec fn opt_texts(v: Seq<Option<String>>) -> Seq<Option<Seq<char>>> {
    v.map_values(|o: Option<String>| o.deep_view())
}

impl CompiledPattern {
    /// The pattern this regex was compiled from.
    pub closed spec fn source(&self) -> Seq<char> {
        self.text@
    }

    /// Calls `regex::Regex::new`. The contract says that it succeeds exactly on the patterns
    /// the crate accepts (a name), that the result remembers its pattern, and names the text
    /// of the error.
    #[verifier::external_body]
    pub(crate) fn compile(pattern: &str) -> (r: Result<CompiledPattern, String>)
        ensures
            r is Ok <==> regex_compiles(pattern@),
            r matches Ok(p) ==> p.source() == pattern@,
            r matches Err(e) ==> e@ == regex_error_text(pattern@),
    {
        match regex::Regex::new(pattern) {
            Ok(re) => Ok(CompiledPattern { text: pattern.to_string(), re }),
            Err(e) => Err(e.to_string()),
        }
    }

    /// Calls `regex::Regex::is_match` on the compiled pattern; the result is named.
    #[verifier::external_body]
    pub(crate) fn is_match(&self, text: &str) -> (r: bool)
        ensures
            r == regex_matches(self.source(), text@),
    {
        self.re.is_match(text)
    }

    /// Calls `regex::Regex::captures` and `Captures::name`, copying out the group's text; the
    /// result is named.
    #[verifier::external_body]
    pub(crate) fn named_group(&self, text: &str, name: &str) -> (r: Option<String>)
        ensures
            r.deep_view() == regex_named_group(self.source(), text@, name@),
    {
        match self.re.captures(text) {
            Some(caps) => match caps.name(name) {
                Some(m) => Some(m.as_str().to_string()),
                None => None,
            },
            None => None,
        }
    }

    /// Calls `regex::Regex::captures` and `Captures::get`, copying out the group's text; the
    /// result is named.
    #[verifier::external_body]
    pub(crate) fn indexed_group(&self, text: &str, index: usize) -> (r: Option<String>)
        ensures
            r.deep_view() == regex_indexed_group(self.source(), text@, index as nat),
    {
        match self.re.captures(text) {
            Some(caps) => match caps.get(index) {
                Some(m) => Some(m.as_str().to_string()),
                None => None,
            },
            None => None,
        }
    }

    /// Calls `regex::Regex::capture_names`, copying out each name; the result is named.
    #[verifier::external_body]
    pub(crate) fn capture_names(&self) -> (r: Vec<Option<String>>)
        ensures
            opt_texts(r@) == regex_capture_names(self.source()),
    {
        self.re.capture_names().map(|n| n.map(|s| s.to_string())).collect()
    }
}

/// Formats a text with `{:?}`; the result is named.
#[verifier::external_body]
pub(crate) fn debug_quoted(s: &str) -> (r: String)
    ensures
        r@ == debug_text(s@),
{
    format!("{:?}", s)
}

} // verus!
