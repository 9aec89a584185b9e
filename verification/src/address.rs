//! Web addresses, held as the text that the `url` crate serializes a URL to.
//!
//! Two URLs are equal exactly when their serializations are, so the library keeps
//! that text and asks the `url` crate for what only it can compute: parsing,
//! resolving a relative reference, and the parts of a URL.
use vstd::prelude::*;

verus! {

/// The serialization of the URL that the `url` crate parses from `text`, or `None`
/// where it refuses the text.
pub uninterp spec fn url_parsed(text: Seq<char>) -> Option<Seq<char>>;

/// The serialization of the URL that `input` refers to, relative to the URL parsed
/// from `base`; `None` where either does not parse.
pub uninterp spec fn url_joined(base: Seq<char>, input: Seq<char>) -> Option<Seq<char>>;

/// The path of the URL parsed from `text`, or `None` where it does not parse.
pub uninterp spec fn url_path(text: Seq<char>) -> Option<Seq<char>>;

/// The domain of the URL parsed from `text`: `None` where it does not parse,
/// `Some(None)` where its host is not a domain.
pub uninterp spec fn url_domain(text: Seq<char>) -> Option<Option<Seq<char>>>;

/// Calls `url::Url::parse` and hands back the serialization of the URL. Claims only
/// that the result is the one that the crate gives for this text.
#[verifier::external_body]
pub(crate) fn parse_url(text: &str) -> (r: Option<String>)
    ensures
        url_parsed(text@) == match r {
            Some(url) => Some(url@),
            None => None,
        },
{
    url::Url::parse(text).ok().map(String::from)
}

/// The serialization of the URL written as `text`, or `None` where the `url` crate
/// does not parse it: the form in which the library keeps a recipe's URL.
pub fn normalized_url(text: &str) -> (r: Option<String>)
    ensures
        url_parsed(text@) == match r {
            Some(url) => Some(url@),
            None => None,
        },
{
    parse_url(text)
}

/// Calls `url::Url::parse` on `base` and then `url::Url::join` with `input`, and
/// hands back the serialization of the joined URL. Claims only that the result is the
/// one that the crate gives for these texts.
#[verifier::external_body]
pub(crate) fn join_url(base: &str, input: &str) -> (r: Option<String>)
    ensures
        url_joined(base@, input@) == match r {
            Some(url) => Some(url@),
            None => None,
        },
{
    match url::Url::parse(base) {
        Ok(url) => url.join(input).ok().map(String::from),
        Err(_) => None,
    }
}

/// Calls `url::Url::parse` and then `url::Url::path`. Claims only that the result is
/// the one that the crate gives for this text.
#[verifier::external_body]
pub(crate) fn path_of_url(text: &str) -> (r: Option<String>)
    ensures
        url_path(text@) == match r {
            Some(path) => Some(path@),
            None => None,
        },
{
    url::Url::parse(text).ok().map(|url| url.path().to_string())
}

/// Calls `url::Url::parse` and then `url::Url::domain`. Claims only that the result
/// is the one that the crate gives for this text.
#[verifier::external_body]
pub(crate) fn domain_of_url(text: &str) -> (r: Option<Option<String>>)
    ensures
        url_domain(text@) == match r {
            Some(Some(domain)) => Some(Some(domain@)),
            Some(None) => Some(None),
            None => None,
        },
{
    url::Url::parse(text).ok().map(|url| url.domain().map(String::from))
}

} // verus!
