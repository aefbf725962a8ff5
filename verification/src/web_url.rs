//! The URL parser this library relies on: `url::Url`, seen through the text
//! that it serialises to.
//!
//! A parsed URL is carried as an opaque value. Every contract below speaks of
//! it through `url_text`, the serialisation that `Url::as_str` returns and by
//! which the parser's own `==` compares two URLs.

use vstd::prelude::*;

verus! {

/// `url::Url`, a parsed URL. Nothing inside it is visible here.
#[verifier::external_type_specification]
#[verifier::external_body]
pub struct ExUrl(url::Url);

/// `url::ParseError`, the reason why a string is no URL.
#[verifier::external_type_specification]
#[verifier::external_body]
pub struct ExParseError(url::ParseError);

/// The serialisation of a parsed URL.
pub uninterp spec fn url_text(u: url::Url) -> Seq<char>;

/// The fragment of a parsed URL, as `Url::fragment` returns it.
pub uninterp spec fn url_fragment(u: url::Url) -> Option<Seq<char>>;

/// The serialisation of the URL that `Url::parse` reads from `input`, or
/// `None` where it rejects the input.
pub uninterp spec fn parsed_text(input: Seq<char>) -> Option<Seq<char>>;

/// The serialisation of the URL that `Url::join` resolves `reference` to
/// against the URL serialised as `base`, or `None` where it fails.
pub uninterp spec fn joined_text(base: Seq<char>, reference: Seq<char>) -> Option<Seq<char>>;

/// The serialisation left when `Url::set_fragment(None)` is applied to the URL
/// serialised as `text`.
pub uninterp spec fn text_without_fragment(text: Seq<char>) -> Seq<char>;

/// The serialisation left when `Url::set_query(query)` is applied to the URL
/// serialised as `text`.
pub uninterp spec fn text_with_query(text: Seq<char>, query: Option<Seq<char>>) -> Seq<char>;

/// The name and value pairs that `Url::query_pairs` yields, in order, for the
/// URL serialised as `text`: its query string read as
/// `application/x-www-form-urlencoded`, percent-decoded.
pub uninterp spec fn query_pairs_of(text: Seq<char>) -> Seq<(Seq<char>, Seq<char>)>;

/// `Url::parse`: an absolute URL is parsed from `input`, or the input is
/// rejected; which of the two, and the URL's serialisation, depend on the
/// input alone.
pub assume_specification[ url::Url::parse ](input: &str) -> (parsed: Result<
    url::Url,
    url::ParseError,
>)
    ensures
        match parsed {
            Ok(u) => parsed_text(input@) == Some(url_text(u)),
            Err(_) => parsed_text(input@) is None,
        },
;

/// `Url::join`: `input` is parsed with `base` as the base URL.
pub assume_specification[ url::Url::join ](base: &url::Url, input: &str) -> (joined: Result<
    url::Url,
    url::ParseError,
>)
    ensures
        match joined {
            Ok(u) => joined_text(url_text(*base), input@) == Some(url_text(u)),
            Err(_) => joined_text(url_text(*base), input@) is None,
        },
;

/// `Url::as_str`: the serialisation.
pub assume_specification[ url::Url::as_str ](u: &url::Url) -> (text: &str)
    ensures
        text@ == url_text(*u),
;

/// `Url::set_fragment`, for the removal of the fragment only: afterwards the
/// URL has no fragment.
pub assume_specification[ url::Url::set_fragment ](u: &mut url::Url, fragment: Option<&str>)
    requires
        fragment is None,
    ensures
        url_text(*final(u)) == text_without_fragment(url_text(*old(u))),
        url_fragment(*final(u)) is None,
;

/// `Url::set_query`, on a URL without a fragment: the query is replaced by
/// `query`, or removed for `None`, and there is still no fragment.
pub assume_specification[ url::Url::set_query ](u: &mut url::Url, query: Option<&str>)
    requires
        url_fragment(*old(u)) is None,
    ensures
        url_text(*final(u)) == text_with_query(
            url_text(*old(u)),
            match query {
                Some(q) => Some(q@),
                None => None,
            },
        ),
        url_fragment(*final(u)) is None,
;

/// `Url::query_pairs`, collected: the decoded name and value pairs of the
/// query string, in the order in which they stand in it.
#[verifier::external_body]
pub(crate) fn query_pairs(u: &url::Url) -> (pairs: Vec<(String, String)>)
    ensures
        pairs.deep_view() == query_pairs_of(url_text(*u)),
{
    u.query_pairs().map(|(name, value)| (name.into_owned(), value.into_owned())).collect()
}

} // verus!
