use snooker::{count_consonant_collections, extract_links, parse_url};

fn cv(s: &str) -> Vec<char> {
    s.chars().collect()
}

#[test]
fn consonant_scheme_words_are_not_counted() {
    // A run spelling exactly "https" is excluded despite being 5 letters.
    assert_eq!(count_consonant_collections("https"), 0);
    // "http" is only 4 consonants and never reaches the threshold.
    assert_eq!(count_consonant_collections("http"), 0);
    // The exclusion is case-sensitive, as the matched text must be exact.
    assert_eq!(count_consonant_collections("HTTPS"), 1);
}

#[test]
fn consonant_runs_are_counted_once_each() {
    assert_eq!(count_consonant_collections(""), 0);
    assert_eq!(count_consonant_collections("abcde"), 0);
    assert_eq!(count_consonant_collections("bcdfg"), 1);
    assert_eq!(count_consonant_collections("strengths"), 1);
    assert_eq!(count_consonant_collections("bcdfg a xkcdw"), 2);
    // Case-insensitive: mixed-case runs count.
    assert_eq!(count_consonant_collections("BcDfG"), 1);
}

#[test]
fn anchor_extraction_captures_all_parts() {
    let caps = extract_links("x <a href=\"https://elliotekj.de\">t</a> y");
    assert_eq!(caps.len(), 1);
    assert_eq!(caps[0].full_url, cv("https://elliotekj.de"));
    assert_eq!(caps[0].scheme, cv("https://"));
    assert_eq!(caps[0].domain, cv("elliotekj"));
    assert_eq!(caps[0].tld, cv("de"));
    assert_eq!(caps[0].path_and_query, cv(""));
}

#[test]
fn anchor_extraction_keeps_document_order() {
    let caps = extract_links(
        "<a href=\"https://a.com/one\">1</a> mid <a href='http://b.org?q=2'>2</a>",
    );
    assert_eq!(caps.len(), 2);
    assert_eq!(caps[0].full_url, cv("https://a.com/one"));
    assert_eq!(caps[0].path_and_query, cv("one"));
    assert_eq!(caps[1].full_url, cv("http://b.org?q=2"));
    assert_eq!(caps[1].scheme, cv("http://"));
    assert_eq!(caps[1].path_and_query, cv("?q=2"));
}

#[test]
fn text_without_anchors_yields_nothing() {
    assert_eq!(extract_links("no links here at all").len(), 0);
    assert_eq!(extract_links("a bare https://a.com is not an anchor").len(), 0);
    assert_eq!(extract_links("<a href=\"gibberish\">x</a>").len(), 0);
}

#[test]
fn extraction_is_idempotent_on_its_output() {
    // Re-running the extractor on a captured URL (its tag markup already
    // stripped by capture) finds nothing further.
    let caps = extract_links("<p>see <a href=\"https://elliotekj.de/post?x=1\">this</a></p>");
    assert_eq!(caps.len(), 1);
    let url: String = caps[0].full_url.iter().collect();
    assert_eq!(extract_links(&url).len(), 0);
}

#[test]
fn bare_url_parsing_captures_all_parts() {
    let cap = parse_url("http://someexample.com?getit=free").unwrap();
    assert_eq!(cap.full_url, cv("http://someexample.com?getit=free"));
    assert_eq!(cap.scheme, cv("http://"));
    assert_eq!(cap.domain, cv("someexample"));
    assert_eq!(cap.tld, cv("com"));
    assert_eq!(cap.path_and_query, cv("?getit=free"));
}

#[test]
fn bare_url_without_scheme_parses() {
    let cap = parse_url("snook.ca").unwrap();
    assert_eq!(cap.scheme, cv(""));
    assert_eq!(cap.domain, cv("snook"));
    assert_eq!(cap.tld, cv("ca"));
}

#[test]
fn bare_url_takes_the_leftmost_match() {
    let cap = parse_url("visit elliotekj.com today").unwrap();
    assert_eq!(cap.domain, cv("elliotekj"));
    assert_eq!(cap.tld, cv("com"));
}

#[test]
fn non_urls_do_not_parse() {
    assert!(parse_url("not a url").is_none());
    assert!(parse_url("").is_none());
    assert!(parse_url("x.y").is_none());
    assert!(parse_url("...").is_none());
}

#[test]
fn long_tld_is_cut_at_ten_letters() {
    // The TLD takes at most 10 letters; the rest joins the path.
    let cap = parse_url("a.abcdefghijkl").unwrap();
    assert_eq!(cap.domain, cv("a"));
    assert_eq!(cap.tld, cv("abcdefghij"));
    assert_eq!(cap.path_and_query, cv("kl"));
}

#[test]
fn domain_takes_the_last_usable_dot() {
    let cap = parse_url("www.snook.ca/archives").unwrap();
    assert_eq!(cap.domain, cv("www.snook"));
    assert_eq!(cap.tld, cv("ca"));
    assert_eq!(cap.path_and_query, cv("archives"));
}
