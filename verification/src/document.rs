//! A fetched page and its identity: the normalised URL under which it is
//! stored and deduplicated, and the fingerprint of its content.

use crate::text::{has_prefix, lowercase_of, same_text, starts_with, trimmed};
use crate::web_url::{
    parsed_text, query_pairs, query_pairs_of, text_with_query, text_without_fragment,
};
use sha2::{Digest, Sha256};
use vstd::prelude::*;
use vstd::string::StringExecFns;

verus! {

/// A query parameter that only tracks where a visitor came from: one whose
/// name begins with `utm_`, or one of the click identifiers.
pub open spec fn is_tracking_name(name: Seq<char>) -> bool {
    ||| has_prefix(name, "utm_"@)
    ||| name == "fbclid"@
    ||| name == "gclid"@
}

/// The pairs of `pairs` that are not tracking parameters, in their order.
pub open spec fn kept_pairs(pairs: Seq<(Seq<char>, Seq<char>)>) -> Seq<(Seq<char>, Seq<char>)> {
    pairs.filter(|p: (Seq<char>, Seq<char>)| !is_tracking_name(p.0))
}

/// `name=value` for each pair, joined by `&`.
pub open spec fn joined_query(pairs: Seq<(Seq<char>, Seq<char>)>) -> Seq<char>
    decreases pairs.len(),
{
    if pairs.len() == 0 {
        Seq::empty()
    } else {
        let item = pairs.last().0 + seq!['='] + pairs.last().1;
        if pairs.len() == 1 {
            item
        } else {
            joined_query(pairs.drop_last()) + seq!['&'] + item
        }
    }
}

/// The query string to give a URL whose query held `pairs`: none when only
/// tracking parameters were there, else the remaining pairs joined.
pub open spec fn cleaned_query(pairs: Seq<(Seq<char>, Seq<char>)>) -> Option<Seq<char>> {
    if kept_pairs(pairs).len() == 0 {
        None
    } else {
        Some(joined_query(kept_pairs(pairs)))
    }
}

/// The serialisation of a parsed URL after its tracking parameters are taken
/// out of the query.
pub open spec fn text_without_tracking(text: Seq<char>) -> Seq<char> {
    text_with_query(text, cleaned_query(query_pairs_of(text)))
}

/// The canonical form of `raw`. A string that parses as a URL loses its
/// fragment and its tracking parameters and is lowercased; any other string is
/// trimmed and lowercased.
pub open spec fn normalized_text(raw: Seq<char>) -> Seq<char> {
    match parsed_text(raw) {
        Some(text) => lowercase_of(text_without_tracking(text_without_fragment(text))),
        None => lowercase_of(trimmed(raw)),
    }
}

/// The SHA-256 digest of the UTF-8 bytes of `content`, written in lowercase
/// hexadecimal.
pub uninterp spec fn sha256_hex(content: Seq<char>) -> Seq<char>;

/// A fingerprint has a fixed width: 64 digits, each a lowercase hexadecimal
/// digit.
pub open spec fn is_fingerprint(hash: Seq<char>) -> bool {
    &&& hash.len() == 64
    &&& forall|i: int|
        0 <= i < hash.len() ==> ('0' <= #[trigger] hash[i] <= '9' || 'a' <= hash[i] <= 'f')
}

/// A page as it is handed to the store.
#[derive(Debug, Clone)]
pub struct Document {
    /// The URL that was fetched.
    pub url: String,
    /// Its canonical form: the key under which the page is stored.
    pub normalized_url: String,
    /// The markup as it was retrieved.
    pub html_content: String,
    /// The name of the source that led to the page.
    pub source: String,
    /// When the page was retrieved, in seconds since the Unix epoch.
    pub crawled_at: i64,
    /// The fingerprint of `html_content`.
    pub content_hash: String,
}

/// A document as the contracts see it.
pub struct DocumentView {
    pub url: Seq<char>,
    pub normalized_url: Seq<char>,
    pub html_content: Seq<char>,
    pub source: Seq<char>,
    pub crawled_at: i64,
    pub content_hash: Seq<char>,
}

impl View for Document {
    type V = DocumentView;

    open spec fn view(&self) -> DocumentView {
        DocumentView {
            url: self.url@,
            normalized_url: self.normalized_url@,
            html_content: self.html_content@,
            source: self.source@,
            crawled_at: self.crawled_at,
            content_hash: self.content_hash@,
        }
    }
}

/// The document of the page `html` fetched from `url` at `crawled_at`: keyed
/// by the canonical form of the URL, fingerprinted by its content.
pub open spec fn assembled(
    url: Seq<char>,
    html: Seq<char>,
    source: Seq<char>,
    crawled_at: i64,
) -> DocumentView {
    DocumentView {
        url,
        normalized_url: normalized_text(url),
        html_content: html,
        source,
        crawled_at,
        content_hash: sha256_hex(html),
    }
}

/// Whether `name` is a tracking parameter.
pub fn is_tracking_param(name: &str) -> (tracking: bool)
    ensures
        tracking == is_tracking_name(name@),
{
    starts_with(name, "utm_") || same_text(name, "fbclid") || same_text(name, "gclid")
}

/// Drops the tracking parameters from `pairs`, keeping the order of the rest.
pub fn retain_query_pairs(pairs: &Vec<(String, String)>) -> (kept: Vec<(String, String)>)
    ensures
        kept.deep_view() == kept_pairs(pairs.deep_view()),
{
    let mut kept: Vec<(String, String)> = Vec::new();
    let mut i: usize = 0;
    proof {
        reveal(Seq::filter);
        assert(pairs.deep_view().take(0) =~= Seq::empty());
    }
    while i < pairs.len()
        invariant
            i <= pairs.len(),
            kept.deep_view() == kept_pairs(pairs.deep_view().take(i as int)),
        decreases pairs.len() - i,
    {
        let ghost before = kept.deep_view();
        let ghost seen = pairs.deep_view().take(i as int);
        let ghost item = pairs.deep_view()[i as int];
        proof {
            assert(pairs.deep_view().take(i + 1) =~= seen.push(item));
            seen.lemma_filter_push(item, |p: (Seq<char>, Seq<char>)| !is_tracking_name(p.0));
        }
        if !is_tracking_param(pairs[i].0.as_str()) {
            kept.push((pairs[i].0.clone(), pairs[i].1.clone()));
            assert(kept.deep_view() =~= before.push(item));
        }
        i += 1;
    }
    proof {
        assert(pairs.deep_view().take(i as int) =~= pairs.deep_view());
    }
    kept
}

/// Writes `pairs` as a query string: `name=value`, joined by `&`.
pub fn join_query(pairs: &Vec<(String, String)>) -> (query: String)
    ensures
        query@ == joined_query(pairs.deep_view()),
{
    let mut query = String::new();
    let mut i: usize = 0;
    proof {
        reveal_strlit("&");
        reveal_strlit("=");
        assert("&"@ =~= seq!['&']);
        assert("="@ =~= seq!['=']);
        assert(pairs.deep_view().take(0) =~= Seq::empty());
    }
    while i < pairs.len()
        invariant
            i <= pairs.len(),
            query@ == joined_query(pairs.deep_view().take(i as int)),
            "&"@ == seq!['&'],
            "="@ == seq!['='],
        decreases pairs.len() - i,
    {
        let ghost done = pairs.deep_view().take(i as int);
        let ghost next = pairs.deep_view().take(i + 1);
        proof {
            assert(next.drop_last() =~= done);
            assert(next.last() == pairs.deep_view()[i as int]);
        }
        if i > 0 {
            query.append("&");
        }
        query.append(pairs[i].0.as_str());
        query.append("=");
        query.append(pairs[i].1.as_str());
        proof {
            let item = next.last().0 + seq!['='] + next.last().1;
            if i == 0 {
                assert(query@ =~= item);
            } else {
                assert(query@ =~= joined_query(done) + seq!['&'] + item);
            }
        }
        i += 1;
    }
    proof {
        assert(pairs.deep_view().take(i as int) =~= pairs.deep_view());
    }
    query
}

/// The query string that replaces one made of `pairs`: `None` when no pair
/// is left once the tracking parameters are gone.
pub fn clean_query(pairs: &Vec<(String, String)>) -> (query: Option<String>)
    ensures
        query.deep_view() == cleaned_query(pairs.deep_view()),
{
    let kept = retain_query_pairs(pairs);
    if kept.len() == 0 {
        None
    } else {
        Some(join_query(&kept))
    }
}

impl Document {
    /// The document for a page fetched from `url` at `crawled_at`.
    pub fn assemble(url: String, html: String, source: String, crawled_at: i64) -> (doc: Document)
        ensures
            doc@ == assembled(url@, html@, source@, crawled_at),
            is_fingerprint(doc.content_hash@),
    {
        let normalized = Self::normalize_url(url.as_str());
        let hash = Self::fingerprint(html.as_str());
        Document {
            url,
            normalized_url: normalized,
            html_content: html,
            source,
            crawled_at,
            content_hash: hash,
        }
    }

    /// The document for a page fetched from `url` just now. The time of
    /// retrieval is read from the system clock, so nothing is promised of it.
    pub fn new(url: String, html: String, source: String) -> (doc: Document)
        ensures
            doc@ == assembled(url@, html@, source@, doc.crawled_at),
            is_fingerprint(doc.content_hash@),
    {
        let now = current_timestamp();
        Self::assemble(url, html, source, now)
    }

    /// A second copy of the document.
    pub fn duplicate(&self) -> (copy: Document)
        ensures
            copy@ == self@,
    {
        Document {
            url: self.url.clone(),
            normalized_url: self.normalized_url.clone(),
            html_content: self.html_content.clone(),
            source: self.source.clone(),
            crawled_at: self.crawled_at,
            content_hash: self.content_hash.clone(),
        }
    }

    /// The canonical form of a URL: the key by which pages are deduplicated.
    /// Never fails: a string that is no URL is trimmed and lowercased.
    pub fn normalize_url(url_str: &str) -> (normalized: String)
        ensures
            normalized@ == normalized_text(url_str@),
    {
        match url::Url::parse(url_str) {
            Ok(parsed) => {
                let mut url = parsed;
                url.set_fragment(None);
                let pairs = query_pairs(&url);
                match clean_query(&pairs) {
                    Some(query) => url.set_query(Some(query.as_str())),
                    None => url.set_query(None),
                }
                url.as_str().to_lowercase()
            },
            Err(_) => url_str.trim().to_lowercase(),
        }
    }

    /// The fingerprint of `content`, by which a changed page is told from an
    /// unchanged one: equal for equal content, and of fixed width.
    pub fn fingerprint(content: &str) -> (hash: String)
        ensures
            hash@ == sha256_hex(content@),
            is_fingerprint(hash@),
    {
        Self::compute_hash(content)
    }

    /// `Sha256` over the bytes of `content`, written with `{:x}`: the digest
    /// of 32 bytes as two lowercase hexadecimal digits a byte, a function of
    /// the content alone.
    #[verifier::external_body]
    fn compute_hash(content: &str) -> (hash: String)
        ensures
            hash@ == sha256_hex(content@),
            is_fingerprint(hash@),
    {
        let mut hasher = Sha256::new();
        hasher.update(content.as_bytes());
        format!("{:x}", hasher.finalize())
    }
}

/// `chrono::Utc::now().timestamp()`: the system clock's time in seconds since
/// the Unix epoch. Two calls may differ, so the contract is empty.
#[verifier::external_body]
pub(crate) fn current_timestamp() -> i64 {
    chrono::Utc::now().timestamp()
}

} // verus!
