use earl::browser::steps::validate_url_scheme;

#[test]
fn disallowed_scheme_rejected() {
    assert!(validate_url_scheme("file:///etc/passwd").is_err());
    let err = validate_url_scheme("file:///etc/passwd").unwrap_err();
    assert!(err.message().contains("file"));
    assert!(err.message().contains("http"));
}

#[test]
fn javascript_uri_rejected() {
    assert!(validate_url_scheme("javascript:alert(1)").is_err());
}

#[test]
fn data_uri_rejected() {
    assert!(validate_url_scheme("data:text/html,<h1>test</h1>").is_err());
}

#[test]
fn http_scheme_allowed() {
    assert!(validate_url_scheme("https://example.com").is_ok());
    assert!(validate_url_scheme("http://example.com/path?q=1").is_ok());
}

#[test]
fn blob_uri_rejected() {
    assert!(validate_url_scheme("blob:https://example.com/abc").is_err());
}
