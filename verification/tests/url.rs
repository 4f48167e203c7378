use taphle::foundation::url::{
    file_url_path, resolve_relative_url, url_fragment_component, url_host_component,
    url_path_component, url_query_component, url_scheme_component,
};

#[test]
fn reads_the_path_out_of_a_url() {
    assert_eq!(url_path_component("/levels/one.json"), Some("/levels/one.json"));
    assert_eq!(
        url_path_component("http://example.com/levels/one.json"),
        Some("/levels/one.json")
    );
    assert_eq!(
        url_path_component("http://user@example.com:8080/scores?top=10#here"),
        Some("/scores")
    );
    // A trailing slash is dropped, except from the root path.
    assert_eq!(url_path_component("http://example.com/levels/"), Some("/levels"));
    assert_eq!(url_path_component("http://example.com/"), Some("/"));
    // Nothing to report rather than an empty string.
    assert_eq!(url_path_component("http://example.com"), None);
    assert_eq!(url_path_component("mailto:"), None);
}

#[test]
fn recognises_the_three_spellings_of_a_file_url() {
    assert_eq!(file_url_path("file:///var/mobile/a.txt"), Some("/var/mobile/a.txt"));
    assert_eq!(
        file_url_path("file://localhost/var/mobile/a.txt"),
        Some("/var/mobile/a.txt")
    );
    assert_eq!(file_url_path("file:/var/mobile/a.txt"), Some("/var/mobile/a.txt"));
    assert_eq!(file_url_path("FILE:///var/mobile/a.txt"), Some("/var/mobile/a.txt"));
    assert_eq!(file_url_path("http://example.com/a.txt"), None);
    assert_eq!(file_url_path("/var/mobile/a.txt"), None);
}

#[test]
fn resolves_relative_urls_against_http_base_urls() {
    assert_eq!(
        resolve_relative_url("http://example.com/assets/levels/", "one.json"),
        "http://example.com/assets/levels/one.json"
    );
    assert_eq!(
        resolve_relative_url("http://example.com/assets/levels.json", "one.json"),
        "http://example.com/assets/one.json"
    );
    assert_eq!(
        resolve_relative_url("http://example.com/assets/levels.json", "/scores"),
        "http://example.com/scores"
    );
}

#[test]
fn components_of_a_full_url() {
    let url = "http://user@example.com:8080/scores?top=10#here";
    assert_eq!(url_scheme_component(url), Some("http"));
    assert_eq!(url_host_component(url), Some("example.com"));
    assert_eq!(url_query_component(url), Some("top=10"));
    assert_eq!(url_fragment_component(url), Some("here"));
    assert_eq!(url_scheme_component("no scheme: here"), None);
    assert_eq!(url_scheme_component(":empty"), None);
    assert_eq!(url_host_component("http:///path"), None);
    assert_eq!(url_query_component("http://example.com/"), None);
    assert_eq!(url_fragment_component("http://example.com/"), None);
    assert_eq!(file_url_path("file://localhost"), Some("/"));
    assert_eq!(resolve_relative_url("docs/readme?x=/y", "a"), "docs/a");
    assert_eq!(resolve_relative_url("readme", "a"), "a");
    assert_eq!(resolve_relative_url("/no/authority", "/abs"), "/abs");
}
