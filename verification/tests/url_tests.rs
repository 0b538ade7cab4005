use snappaste::url::{normalize_external_url, normalize_web_url};

#[test]
fn external_url_accepts_http_and_adds_scheme_for_www() {
    assert_eq!(
        normalize_external_url("www.example.com").expect("normalize URL"),
        "https://www.example.com"
    );
    assert_eq!(
        normalize_external_url("https://example.com").expect("normalize URL"),
        "https://example.com"
    );
}

#[test]
fn external_url_rejects_non_web_schemes() {
    assert!(normalize_external_url("file:///C:/secret.txt").is_err());
    assert!(normalize_external_url("javascript:alert(1)").is_err());
}

#[test]
fn normalizes_web_urls() {
    assert_eq!(
        normalize_web_url("www.example.com").expect("normalize www URL"),
        "https://www.example.com"
    );
    assert!(normalize_web_url("file:///tmp/private").is_err());
}

#[test]
fn blank_url_is_refused_with_its_message() {
    assert_eq!(normalize_external_url("   ").unwrap_err(), "链接不能为空");
    assert_eq!(
        normalize_web_url("ftp://example.com").unwrap_err(),
        "只允许打开 HTTP 或 HTTPS 链接"
    );
}

#[test]
fn url_is_trimmed_and_scheme_case_is_ignored() {
    assert_eq!(
        normalize_web_url("  WWW.Example.com  ").unwrap(),
        "https://WWW.Example.com"
    );
    assert_eq!(normalize_web_url("HTTP://x.y").unwrap(), "HTTP://x.y");
}

#[test]
fn normalizing_an_accepted_url_again_changes_nothing() {
    let once = normalize_web_url(" www.rust-lang.org ").unwrap();
    let twice = normalize_web_url(&once).unwrap();
    assert_eq!(once, twice);
}
