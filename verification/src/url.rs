//! URL parsing, done by `reqwest::Url` (the `url` crate).
use vstd::prelude::*;

verus! {

/// What `reqwest::Url::parse` makes of a text: on success the URL's scheme and its
/// host (if it has one), on failure the text of the parse error.
pub uninterp spec fn url_parse(input: Seq<char>) -> Result<(Seq<char>, Option<Seq<char>>), Seq<char>>;

/// The model of a parse outcome handed over as plain values.
pub open spec fn parsed_view(parsed: Result<(String, Option<String>), String>) -> Result<(Seq<char>, Option<Seq<char>>), Seq<char>> {
    match parsed {
        Ok((scheme, host)) => Ok(
            (
                scheme@,
                match host {
                    Some(h) => Some(h@),
                    None => None,
                },
            ),
        ),
        Err(e) => Err(e@),
    }
}

/// Calls `reqwest::Url::parse` and hands back the URL's scheme and host, or the
/// error's text. The outcome is the named function of the input; what that
/// function is on any given text is left to the `url` crate.
#[verifier::external_body]
pub(crate) fn parse_url(input: &str) -> (r: Result<(String, Option<String>), String>)
    ensures
        parsed_view(r) == url_parse(input@),
{
    match reqwest::Url::parse(input) {
        Ok(url) => Ok((url.scheme().to_string(), url.host_str().map(|h| h.to_string()))),
        Err(error) => Err(error.to_string()),
    }
}

} // verus!
