use semtex::request::search_url;
use semtex::request::SearchRequest;

fn contains(haystack: &[u8], needle: &[u8]) -> bool {
    haystack.windows(needle.len()).any(|w| w == needle)
}

#[test]
fn url_has_the_four_query_parameters() {
    let url = search_url("Barry Obama");
    assert_eq!(
        url,
        b"https://www.wikidata.org/w/api.php\
          ?action=wbsearchentities&format=json&language=en&search=Barry%20Obama"
            .to_vec()
    );
}

#[test]
fn url_percent_encodes_the_term() {
    let url = search_url("a b");
    assert!(contains(&url, b"search=a%20b"));
    assert!(!contains(&url, b"a b"));
}

#[test]
fn url_encodes_multi_byte_term() {
    let url = search_url("Barack \u{d3} Broin");
    assert!(contains(&url, b"search=Barack%20%C3%93%20Broin"));
}

#[test]
fn two_searches_are_independent() {
    let first = search_url("alpha");
    let second = search_url("beta");
    assert_ne!(first, second);
    assert!(contains(&first, b"search=alpha"));
    assert!(contains(&second, b"search=beta"));
    assert!(!contains(&second, b"alpha"));
    assert!(!contains(&first, b"beta"));
}

#[test]
fn request_rejects_empty_term() {
    assert!(SearchRequest::new(String::new()).is_none());
}

#[test]
fn request_url_matches_search_url() {
    let request = SearchRequest::new("Barry Obama".to_string()).expect("non-empty term");
    assert_eq!(request.url(), search_url("Barry Obama"));
}
