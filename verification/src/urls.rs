//! URLs as the library reads them: scheme, host and fragment of a parsed URL, and the
//! key/value pairs of a form-encoded text.
use vstd::prelude::*;

verus! {

/// The parts of a URL that the library reads.
pub struct UrlView {
    pub scheme: String,
    pub host: Option<String>,
    pub fragment: Option<String>,
}

/// Scheme, host and fragment of `text` parsed as an absolute URL, or the text of the parse
/// error when it does not parse (as the `url` crate parses it and words its errors).
pub uninterp spec fn parsed_url(text: Seq<char>) -> Result<(Seq<char>, Option<Seq<char>>, Option<Seq<char>>), Seq<char>>;

/// The text of the error of a URL that does not parse; empty for one that does.
pub open spec fn url_error(text: Seq<char>) -> Seq<char> {
    match parsed_url(text) {
        Ok(_) => Seq::empty(),
        Err(e) => e,
    }
}

/// The decoded key/value pairs of a form-encoded text, in order (as the `form_urlencoded` crate
/// decodes them).
pub uninterp spec fn form_pairs_of(text: Seq<char>) -> Seq<(Seq<char>, Seq<char>)>;

/// The parts of a parsed URL.
pub open spec fn url_parts(u: UrlView) -> (Seq<char>, Option<Seq<char>>, Option<Seq<char>>) {
    (u.scheme@, u.host.deep_view(), u.fragment.deep_view())
}

/// Calls `url::Url::parse` and copies out the scheme, host and fragment of the result, or the
/// text of its error. The contract names both.
#[verifier::external_body]
pub(crate) fn parse_url(text: &str) -> (r: Result<UrlView, String>)
    ensures
        match r {
            Ok(u) => parsed_url(text@) == Ok::<(Seq<char>, Option<Seq<char>>, Option<Seq<char>>), Seq<char>>(url_parts(u)),
            Err(e) => parsed_url(text@) == Err::<(Seq<char>, Option<Seq<char>>, Option<Seq<char>>), Seq<char>>(e@),
        },
{
    match url::Url::parse(text) {
        Ok(u) => Ok(
            UrlView {
                scheme: u.scheme().to_string(),
                host: u.host_str().map(|h| h.to_string()),
                fragment: u.fragment().map(|f| f.to_string()),
            },
        ),
        Err(e) => Err(e.to_string()),
    }
}

/// The texts of a list of string pairs.
pub open spec fn pair_texts(v: Seq<(String, String)>) -> Seq<(Seq<char>, Seq<char>)> {
    v.map_values(|p: (String, String)| (p.0@, p.1@))
}

/// Calls `form_urlencoded::parse` on the bytes of `text` and collects the decoded pairs. The
/// contract names the pairs.
#[verifier::external_body]
pub(crate) fn form_pairs(text: &str) -> (r: Vec<(String, String)>)
    ensures
        pair_texts(r@) == form_pairs_of(text@),
{
    url::form_urlencoded::parse(text.as_bytes()).map(|(k, v)| (k.into_owned(), v.into_owned())).collect()
}


/// The text of `base` parsed as a URL with the pairs `(k1, v1)` and `(k2, v2)` appended to its
/// query, or the text of the parse error (as the `url` crate serializes URLs and words errors).
pub uninterp spec fn url_with_query_text(base: Seq<char>, k1: Seq<char>, v1: Seq<char>, k2: Seq<char>, v2: Seq<char>) -> Result<Seq<char>, Seq<char>>;

/// Calls `url::Url::parse` on `base`, appends the two pairs through
/// `query_pairs_mut().append_pair`, and gives the URL's text, or the text of the parse error.
/// The contract names both.
#[verifier::external_body]
pub(crate) fn url_with_query(base: &str, k1: &str, v1: &str, k2: &str, v2: &str) -> (r: Result<
    String,
    String,
>)
    ensures
        match r {
            Ok(s) => url_with_query_text(base@, k1@, v1@, k2@, v2@) == Ok::<Seq<char>, Seq<char>>(s@),
            Err(e) => url_with_query_text(base@, k1@, v1@, k2@, v2@) == Err::<Seq<char>, Seq<char>>(e@),
        },
{
    match url::Url::parse(base) {
        Ok(mut u) => {
            u.query_pairs_mut().append_pair(k1, v1).append_pair(k2, v2);
            Ok(u.to_string())
        },
        Err(e) => Err(e.to_string()),
    }
}

} // verus!
