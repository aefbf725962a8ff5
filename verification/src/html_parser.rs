//! Link extraction: the anchors of a page, resolved against the page's URL,
//! and a keyword test for pages about history.

use crate::text::{
    contains, has_prefix, has_substring, lowercase_of, skip_leading_blanks, starts_with,
    without_leading_blanks,
};
use crate::web_url::{joined_text, parsed_text, url_text};
use vstd::hash_set::StringHashSet;
use vstd::prelude::*;

verus! {

/// For each element of the document parsed from `html` that the CSS selector
/// `selector` matches, in the order in which the parser put the elements
/// into its tree, the value of its attribute `attr` if it has one; `None`
/// where `selector` is no valid selector.
pub uninterp spec fn selected_attrs(
    html: Seq<char>,
    selector: Seq<char>,
    attr: Seq<char>,
) -> Option<Seq<Option<Seq<char>>>>;

/// A URL that a crawler can follow: no script pseudo-URL, mail or telephone
/// link, and no bare in-page anchor.
pub open spec fn is_navigable(url: Seq<char>) -> bool {
    &&& !has_prefix(url, "javascript:"@)
    &&& !has_prefix(url, "mailto:"@)
    &&& !has_prefix(url, "tel:"@)
    &&& !has_prefix(url, "#"@)
}

/// The link that an anchor with this `href` gives on a page at `base`, if any:
/// the reference resolved against the base, where the reference is navigable
/// as it is written after its leading blanks, resolves, and is navigable once
/// resolved. So an anchor that only names a place on its own page gives no
/// link.
pub open spec fn link_of(href: Option<Seq<char>>, base: Seq<char>) -> Option<Seq<char>> {
    match href {
        Some(reference) => if !is_navigable(without_leading_blanks(reference)) {
            None
        } else {
            match joined_text(base, reference) {
                Some(absolute) => if is_navigable(absolute) {
                    Some(absolute)
                } else {
                    None
                },
                None => None,
            }
        },
        None => None,
    }
}

/// The set of links of all `hrefs` on a page at `base`, each link once, in
/// the order in which the links first occur.
pub open spec fn links_of(hrefs: Seq<Option<Seq<char>>>, base: Seq<char>) -> Seq<Seq<char>>
    decreases hrefs.len(),
{
    if hrefs.len() == 0 {
        Seq::empty()
    } else {
        let before = links_of(hrefs.drop_last(), base);
        match link_of(hrefs.last(), base) {
            Some(link) => if before.contains(link) {
                before
            } else {
                before.push(link)
            },
            None => before,
        }
    }
}

/// The links of anchors with these `hrefs` on a page fetched from `base_url`:
/// none when `base_url` is no absolute URL.
pub open spec fn resolved_links(hrefs: Seq<Option<Seq<char>>>, base_url: Seq<char>) -> Seq<
    Seq<char>,
> {
    match parsed_text(base_url) {
        Some(base) => links_of(hrefs, base),
        None => Seq::empty(),
    }
}

/// The links on the page `html` fetched from `base_url`.
pub open spec fn extracted_links(html: Seq<char>, base_url: Seq<char>) -> Seq<Seq<char>> {
    match selected_attrs(html, "a[href]"@, "href"@) {
        Some(hrefs) => resolved_links(hrefs, base_url),
        None => Seq::empty(),
    }
}

/// The word stems that mark a text as being about history.
pub open spec fn history_keywords() -> Seq<Seq<char>> {
    seq![
        "истор"@,
        "войн"@,
        "царь"@,
        "импер"@,
        "револю"@,
        "ancient"@,
        "medieval"@,
        "dynasty"@,
        "battle"@,
        "empire"@,
    ]
}

/// Keyword number `k` occurs in the lowercased URL or the lowercased markup.
pub open spec fn keyword_occurs(url: Seq<char>, html: Seq<char>, k: int) -> bool {
    ||| has_substring(lowercase_of(url), history_keywords()[k])
    ||| has_substring(lowercase_of(html), history_keywords()[k])
}

/// Some history keyword occurs in the URL or the markup, whatever its case
/// there.
pub open spec fn history_related(url: Seq<char>, html: Seq<char>) -> bool {
    exists|k: int| 0 <= k < history_keywords().len() && keyword_occurs(url, html, k)
}

/// No link occurs twice among the links of a page.
pub proof fn lemma_links_distinct(hrefs: Seq<Option<Seq<char>>>, base: Seq<char>)
    ensures
        links_of(hrefs, base).no_duplicates(),
    decreases hrefs.len(),
{
    if hrefs.len() > 0 {
        lemma_links_distinct(hrefs.drop_last(), base);
    }
}

/// `scraper`: parses `html` as a document, selects the elements that
/// `selector` matches and reads the attribute `attr` of each. The result is a
/// function of the three strings alone.
#[verifier::external_body]
fn select_attr(html: &str, selector: &str, attr: &str) -> (found: Option<Vec<Option<String>>>)
    ensures
        found.deep_view() == selected_attrs(html@, selector@, attr@),
{
    let selector = scraper::Selector::parse(selector).ok()?;
    let document = scraper::Html::parse_document(html);
    Some(document.select(&selector).map(|e| e.value().attr(attr).map(String::from)).collect())
}

/// Namespace of the functions that read markup.
pub struct HtmlParser;

impl HtmlParser {
    /// The links of a page: the `href` of each anchor, resolved against the
    /// URL the page was fetched from, without those a crawler cannot follow.
    /// The result is a set: each link stands in it once, where it first
    /// occurs. Never fails: where nothing can be read, there are no links.
    pub fn extract_links(html: &str, base_url: &str) -> (links: Vec<String>)
        ensures
            links.deep_view() == extracted_links(html@, base_url@),
            links.deep_view().no_duplicates(),
    {
        match select_attr(html, "a[href]", "href") {
            Some(hrefs) => Self::resolve_links(&hrefs, base_url),
            None => {
                let links: Vec<String> = Vec::new();
                assert(links.deep_view() =~= Seq::empty());
                links
            },
        }
    }

    /// Resolves the `href` values of a page's anchors against the URL it was
    /// fetched from, in order. Drops what is missing, what does not resolve,
    /// what is not navigable before or after it is resolved, and what has
    /// occurred before.
    pub fn resolve_links(hrefs: &Vec<Option<String>>, base_url: &str) -> (links: Vec<String>)
        ensures
            links.deep_view() == resolved_links(hrefs.deep_view(), base_url@),
            links.deep_view().no_duplicates(),
    {
        let mut links: Vec<String> = Vec::new();
        assert(links.deep_view() =~= Seq::empty());
        let base = match url::Url::parse(base_url) {
            Ok(base) => base,
            Err(_) => {
                return links;
            },
        };
        let ghost base_text = parsed_text(base_url@)->0;
        let mut seen = StringHashSet::new();
        let mut i: usize = 0;
        proof {
            assert(hrefs.deep_view().take(0) =~= Seq::empty());
        }
        while i < hrefs.len()
            invariant
                i <= hrefs.len(),
                base_text == url_text(base),
                links.deep_view() == links_of(hrefs.deep_view().take(i as int), base_text),
                forall|link: Seq<char>| seen@.contains(link) <==> links.deep_view().contains(link),
            decreases hrefs.len() - i,
        {
            let ghost before = links.deep_view();
            let ghost known = seen@;
            proof {
                let next = hrefs.deep_view().take(i + 1);
                assert(next.drop_last() =~= hrefs.deep_view().take(i as int));
                assert(next.last() == hrefs.deep_view()[i as int]);
            }
            match &hrefs[i] {
                Some(href) => if Self::is_valid_url(skip_leading_blanks(href.as_str())) {
                    match base.join(href.as_str()) {
                        Ok(absolute) => {
                            let link = absolute.as_str().to_owned();
                            if Self::is_valid_url(link.as_str()) {
                                if seen.insert(link.clone()) {
                                    links.push(link);
                                    proof {
                                        assert(links.deep_view() =~= before.push(link@));
                                        assert forall|other: Seq<char>|
                                            seen@.contains(other) <==> links.deep_view().contains(
                                                other,
                                            ) by {
                                            if before.contains(other) {
                                                let k = choose|k: int|
                                                    0 <= k < before.len() && before[k] == other;
                                                assert(links.deep_view()[k] == other);
                                            }
                                            if other == link@ {
                                                assert(links.deep_view()[before.len() as int]
                                                    == other);
                                            }
                                        }
                                    }
                                } else {
                                    assert(before.contains(link@));
                                    assert(seen@ =~= known);
                                }
                            }
                        },
                        Err(_) => {},
                    }
                },
                None => {},
            }
            i += 1;
        }
        proof {
            assert(hrefs.deep_view().take(i as int) =~= hrefs.deep_view());
            lemma_links_distinct(hrefs.deep_view(), base_text);
        }
        links
    }

    /// Whether a crawler can follow `url`.
    pub fn is_valid_url(url: &str) -> (valid: bool)
        ensures
            valid == is_navigable(url@),
    {
        !starts_with(url, "javascript:") && !starts_with(url, "mailto:") && !starts_with(
            url,
            "tel:",
        ) && !starts_with(url, "#")
    }

    /// Whether the page is about history: its URL or its markup holds one of
    /// the history keywords, compared in lowercase.
    pub fn is_history_related(url: &str, html: &str) -> (related: bool)
        ensures
            related == history_related(url@, html@),
    {
        let lower_url = url.to_lowercase();
        let lower_html = html.to_lowercase();
        let keywords: Vec<&str> = vec![
            "истор",
            "войн",
            "царь",
            "импер",
            "револю",
            "ancient",
            "medieval",
            "dynasty",
            "battle",
            "empire",
        ];
        assert(keywords@.len() == history_keywords().len());
        assert(forall|k: int| 0 <= k < keywords@.len() ==> keywords@[k]@ == history_keywords()[k]);
        let mut i: usize = 0;
        while i < keywords.len()
            invariant
                i <= keywords.len(),
                keywords@.len() == history_keywords().len(),
                forall|k: int| 0 <= k < keywords@.len() ==> keywords@[k]@ == history_keywords()[k],
                lower_url@ == lowercase_of(url@),
                lower_html@ == lowercase_of(html@),
                forall|k: int| 0 <= k < i ==> !keyword_occurs(url@, html@, k),
            decreases keywords.len() - i,
        {
            if contains(lower_url.as_str(), keywords[i]) || contains(lower_html.as_str(), keywords[i]) {
                assert(keyword_occurs(url@, html@, i as int));
                return true;
            }
            i += 1;
        }
        false
    }
}

} // verus!
