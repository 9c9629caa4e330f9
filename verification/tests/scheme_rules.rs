use earl::browser::error::BrowserError;
use earl::browser::steps::{scheme_verdict, url_scheme, validate_url_scheme};

#[test]
fn scheme_is_compared_after_lowercasing() {
    assert!(validate_url_scheme("HTTPS://EXAMPLE.COM").is_ok());
    assert!(validate_url_scheme("Http://example.com").is_ok());
    match validate_url_scheme("FILE:///etc/passwd") {
        Err(BrowserError::DisallowedScheme { scheme }) => assert_eq!(scheme, "file"),
        other => panic!("unexpected: {:?}", other),
    }
}

#[test]
fn scheme_is_the_text_before_the_first_colon() {
    assert_eq!(url_scheme("https://a:b@example.com"), "https");
    assert_eq!(url_scheme("no-colon-here"), "no-colon-here");
    assert_eq!(url_scheme(":leading"), "");
}

#[test]
fn url_without_colon_is_rejected_whole() {
    match validate_url_scheme("example.com") {
        Err(BrowserError::DisallowedScheme { scheme }) => assert_eq!(scheme, "example.com"),
        other => panic!("unexpected: {:?}", other),
    }
    assert!(validate_url_scheme("").is_err());
    assert!(validate_url_scheme("httpx://example.com").is_err());
    assert!(validate_url_scheme("ftp://example.com").is_err());
}

#[test]
fn scheme_verdict_accepts_only_http_and_https() {
    assert!(scheme_verdict("http".to_string()).is_ok());
    assert!(scheme_verdict("https".to_string()).is_ok());
    assert!(scheme_verdict("HTTP".to_string()).is_err());
    assert!(scheme_verdict("".to_string()).is_err());
}

#[test]
fn browser_error_messages() {
    let e = BrowserError::DisallowedScheme { scheme: "file".to_string() };
    assert_eq!(e.message(), "disallowed URL scheme 'file': only http and https are allowed");
    let e = BrowserError::Timeout { step: 3, action: "click".to_string(), timeout_ms: 2000 };
    assert_eq!(e.message(), "browser step 3 (click) timed out after 2000ms");
    let e = BrowserError::Other("boom".to_string());
    assert_eq!(e.message(), "browser error: boom");
}

#[test]
fn ascii_case_of_the_scheme_does_not_matter() {
    for url in ["HTTPS://example.com", "hTtP://x", "Https://a:b"] {
        assert!(validate_url_scheme(url).is_ok(), "{url}");
    }
    for url in ["FILE:///x", "File:///x", "file:///x"] {
        assert!(validate_url_scheme(url).is_err(), "{url}");
    }
}
