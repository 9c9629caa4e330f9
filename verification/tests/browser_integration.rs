use earl::browser::steps::validate_url_scheme;

#[test]
fn allowed_schemes_are_accepted() {
    assert!(validate_url_scheme("http://example.com").is_ok());
    assert!(validate_url_scheme("https://example.com").is_ok());
}

#[test]
fn file_scheme_is_rejected() {
    let err = validate_url_scheme("file:///etc/passwd").unwrap_err();
    let err = err.message();
    assert!(
        err.contains("file"),
        "error should mention the disallowed scheme; got: {err}"
    );
}

#[test]
fn javascript_scheme_is_rejected() {
    let err = validate_url_scheme("javascript:alert(1)").unwrap_err();
    let err = err.message();
    assert!(
        err.contains("javascript"),
        "error should mention the disallowed scheme; got: {err}"
    );
}

#[test]
fn data_scheme_is_rejected() {
    let err = validate_url_scheme("data:text/html,<h1>hi</h1>").unwrap_err();
    let err = err.message();
    assert!(
        err.contains("data"),
        "error should mention the disallowed scheme; got: {err}"
    );
}

#[test]
fn blob_scheme_is_rejected() {
    let err = validate_url_scheme("blob:https://example.com/uuid").unwrap_err();
    let err = err.message();
    assert!(
        err.contains("blob"),
        "error should mention the disallowed scheme; got: {err}"
    );
}

#[test]
fn disallowed_scheme_fails_at_scheme_validation() {
    let result = validate_url_scheme("file:///etc/passwd");
    assert!(result.is_err());
    let msg = result.unwrap_err().message();
    assert!(
        msg.contains("file"),
        "error message should contain the scheme name; got: {msg}"
    );
}
