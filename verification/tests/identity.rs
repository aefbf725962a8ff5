use history_crawler::document::{
    clean_query, is_tracking_param, join_query, retain_query_pairs, Document,
};

fn pair(name: &str, value: &str) -> (String, String) {
    (name.to_string(), value.to_string())
}

#[test]
fn normalization_strips_tracking_params() {
    let with_tracking = Document::normalize_url("http://x/?a=1&utm_source=foo#frag");
    let plain = Document::normalize_url("http://x/?a=1");
    assert_eq!(with_tracking, plain);
    assert_eq!(with_tracking, "http://x/?a=1");
}

#[test]
fn normalization_is_idempotent_on_canonical_input() {
    let inputs = vec![
        "http://example.org/wiki/A",
        "HTTP://Example.ORG/Wiki/A?b=2&utm_medium=mail&a=1#top",
        "https://ru.wikipedia.org/wiki/Rome?fbclid=abc",
        "  not a url  ",
        "",
        "mailto:Someone@Example.org",
    ];
    for input in inputs {
        let once = Document::normalize_url(input);
        let twice = Document::normalize_url(&once);
        assert_eq!(twice, once, "input {:?}", input);
    }
}

#[test]
fn normalization_drops_fragment() {
    assert_eq!(Document::normalize_url("http://example.org/a#section"), "http://example.org/a");
    assert_eq!(Document::normalize_url("http://example.org/a#"), "http://example.org/a");
}

#[test]
fn normalization_omits_query_when_only_tracking_remains() {
    assert_eq!(Document::normalize_url("http://x/p?utm_source=a&gclid=1&fbclid=2"), "http://x/p");
    assert_eq!(Document::normalize_url("http://x/p?"), "http://x/p");
}

#[test]
fn normalization_keeps_order_of_remaining_params() {
    assert_eq!(
        Document::normalize_url("http://x/?b=2&fbclid=z&a=1&utm_campaign=c&c=3"),
        "http://x/?b=2&a=1&c=3"
    );
}

#[test]
fn normalization_lowercases_the_whole_result() {
    assert_eq!(
        Document::normalize_url("HTTP://Example.ORG/Path/Page?Q=Value"),
        "http://example.org/path/page?q=value"
    );
}

#[test]
fn normalization_falls_back_for_malformed_input() {
    assert_eq!(Document::normalize_url("  Not A URL  "), "not a url");
    assert_eq!(Document::normalize_url("/relative/Path"), "/relative/path");
    assert_eq!(Document::normalize_url("\tMiXeD\n"), "mixed");
    assert_eq!(Document::normalize_url("\u{a0}\u{2003}Wide Blanks\u{3000}\u{85}"), "wide blanks");
    assert_eq!(Document::normalize_url("\u{200b}kept\u{200b}"), "\u{200b}kept\u{200b}");
    assert_eq!(Document::normalize_url(""), "");
}

#[test]
fn normalization_compares_parameter_names_as_written() {
    // The name is tested before the result is lowercased, so a tracking name
    // in capitals stays.
    assert_eq!(Document::normalize_url("http://x/?UTM_source=1"), "http://x/?utm_source=1");
}

#[test]
fn normalization_writes_pairs_without_value_with_equals_sign() {
    assert_eq!(Document::normalize_url("http://x/?flag"), "http://x/?flag=");
}

#[test]
fn tracking_params_are_recognised() {
    assert!(is_tracking_param("utm_source"));
    assert!(is_tracking_param("utm_"));
    assert!(is_tracking_param("fbclid"));
    assert!(is_tracking_param("gclid"));
    assert!(!is_tracking_param("utm"));
    assert!(!is_tracking_param("source_utm_"));
    assert!(!is_tracking_param("fbclid2"));
    assert!(!is_tracking_param("Gclid"));
    assert!(!is_tracking_param(""));
}

#[test]
fn retain_query_pairs_keeps_order() {
    let pairs = vec![
        pair("utm_source", "x"),
        pair("b", "2"),
        pair("gclid", "y"),
        pair("a", "1"),
        pair("fbclid", "z"),
    ];
    assert_eq!(retain_query_pairs(&pairs), vec![pair("b", "2"), pair("a", "1")]);
    assert_eq!(retain_query_pairs(&Vec::new()), Vec::<(String, String)>::new());
}

#[test]
fn join_query_joins_with_ampersand() {
    assert_eq!(join_query(&Vec::new()), "");
    assert_eq!(join_query(&vec![pair("a", "1")]), "a=1");
    assert_eq!(join_query(&vec![pair("a", "1"), pair("b", ""), pair("", "c")]), "a=1&b=&=c");
}

#[test]
fn clean_query_is_none_without_remaining_pairs() {
    assert_eq!(clean_query(&Vec::new()), None);
    assert_eq!(clean_query(&vec![pair("utm_x", "1"), pair("gclid", "2")]), None);
    assert_eq!(
        clean_query(&vec![pair("utm_x", "1"), pair("q", "rome"), pair("page", "2")]),
        Some("q=rome&page=2".to_string())
    );
}

#[test]
fn fingerprint_is_sha256_in_lowercase_hex() {
    let empty = Document::assemble(String::new(), String::new(), String::new(), 0);
    assert_eq!(
        empty.content_hash,
        "e3b0c44298fc1c149afbf4c8996fb92427ae41e4649b934ca495991b7852b855"
    );
    let abc = Document::assemble("http://x/".to_string(), "abc".to_string(), "s".to_string(), 0);
    assert_eq!(
        abc.content_hash,
        "ba7816bf8f01cfea414140de5dae2223b00361a396177a9cb410ff61f20015ad"
    );
    assert_eq!(abc.content_hash.len(), 64);
}

#[test]
fn fingerprint_has_fixed_width() {
    for content in vec!["", "a", "<html>история</html>", "The quick brown fox jumps over the lazy dog"] {
        let hash = Document::fingerprint(content);
        assert_eq!(hash.len(), 64, "content {:?}", content);
        assert!(hash.chars().all(|c| c.is_ascii_digit() || ('a'..='f').contains(&c)));
        assert_eq!(hash, Document::fingerprint(content));
        assert_ne!(hash, content);
    }
    assert_eq!(
        Document::fingerprint("The quick brown fox jumps over the lazy dog"),
        "d7a8fbb307d7809469ca9abcb0082e4f8d5651e46d3cdb762d02d0bf37c9e592"
    );
}

#[test]
fn fingerprint_depends_on_content_only() {
    let a = Document::assemble("http://x/a".to_string(), "<p>same</p>".to_string(), "s".to_string(), 1);
    let b = Document::assemble("http://x/b".to_string(), "<p>same</p>".to_string(), "t".to_string(), 2);
    let c = Document::assemble("http://x/a".to_string(), "<p>other</p>".to_string(), "s".to_string(), 1);
    assert_eq!(a.content_hash, b.content_hash);
    assert_ne!(a.content_hash, c.content_hash);
}

#[test]
fn assemble_fills_every_field() {
    let doc = Document::assemble(
        "HTTP://Example.org/Wiki/A?utm_source=x#top".to_string(),
        "<html></html>".to_string(),
        "Wikipedia".to_string(),
        1_700_000_000,
    );
    assert_eq!(doc.url, "HTTP://Example.org/Wiki/A?utm_source=x#top");
    assert_eq!(doc.normalized_url, "http://example.org/wiki/a");
    assert_eq!(doc.html_content, "<html></html>");
    assert_eq!(doc.source, "Wikipedia");
    assert_eq!(doc.crawled_at, 1_700_000_000);
    assert_eq!(
        doc.content_hash,
        Document::assemble(String::new(), "<html></html>".to_string(), String::new(), 0).content_hash
    );
}

#[test]
fn new_stamps_the_current_time() {
    let doc = Document::new("http://x/".to_string(), "body".to_string(), "s".to_string());
    assert!(doc.crawled_at > 1_600_000_000);
    assert_eq!(doc.normalized_url, "http://x/");
    assert_eq!(doc.html_content, "body");
    assert_eq!(doc.source, "s");
    assert_eq!(doc.url, "http://x/");
}

#[test]
fn duplicate_copies_every_field() {
    let doc = Document::assemble("http://x/A".to_string(), "body".to_string(), "s".to_string(), 7);
    let copy = doc.duplicate();
    assert_eq!(copy.url, doc.url);
    assert_eq!(copy.normalized_url, doc.normalized_url);
    assert_eq!(copy.html_content, doc.html_content);
    assert_eq!(copy.source, doc.source);
    assert_eq!(copy.crawled_at, doc.crawled_at);
    assert_eq!(copy.content_hash, doc.content_hash);
}
