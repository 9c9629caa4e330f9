use earl::secrets::{validate_azure_vault_name, validate_path_segment};

#[test]
fn validate_path_segment_accepts_valid() {
    validate_path_segment("my-vault", "vault").unwrap();
    validate_path_segment("my_item.name", "item").unwrap();
    validate_path_segment("123", "version").unwrap();
}

#[test]
fn validate_path_segment_rejects_slash() {
    let err = validate_path_segment("foo/bar", "field").unwrap_err().message();
    assert!(err.contains("invalid character"), "got: {err}");
}

#[test]
fn validate_path_segment_rejects_question_mark() {
    let err = validate_path_segment("foo?bar", "field").unwrap_err().message();
    assert!(err.contains("invalid character"), "got: {err}");
}

#[test]
fn validate_path_segment_rejects_hash() {
    let err = validate_path_segment("foo#bar", "field").unwrap_err().message();
    assert!(err.contains("invalid character"), "got: {err}");
}

#[test]
fn validate_path_segment_rejects_whitespace() {
    let err = validate_path_segment("foo bar", "field").unwrap_err().message();
    assert!(err.contains("invalid character"), "got: {err}");
}

#[test]
fn validate_path_segment_rejects_control_chars() {
    let err = validate_path_segment("foo\x00bar", "field").unwrap_err().message();
    assert!(err.contains("invalid character"), "got: {err}");
}

#[test]
fn validate_path_segment_rejects_empty() {
    let err = validate_path_segment("", "field").unwrap_err().message();
    assert!(err.contains("must not be empty"), "got: {err}");
}

#[test]
fn validate_azure_vault_name_accepts_valid() {
    validate_azure_vault_name("my-vault").unwrap();
    validate_azure_vault_name("abc").unwrap();
    validate_azure_vault_name("vault123").unwrap();
}

#[test]
fn validate_azure_vault_name_rejects_too_short() {
    let err = validate_azure_vault_name("ab").unwrap_err().message();
    assert!(err.contains("3-24"), "got: {err}");
}

#[test]
fn validate_azure_vault_name_rejects_too_long() {
    let err = validate_azure_vault_name("a".repeat(25).as_str()).unwrap_err().message();
    assert!(err.contains("3-24"), "got: {err}");
}

#[test]
fn validate_azure_vault_name_rejects_dots() {
    let err = validate_azure_vault_name("my.vault").unwrap_err().message();
    assert!(
        err.contains("alphanumeric"),
        "got: {err}"
    );
}

#[test]
fn validate_azure_vault_name_rejects_leading_hyphen() {
    let err = validate_azure_vault_name("-vault").unwrap_err().message();
    assert!(
        err.contains("must not start or end"),
        "got: {err}"
    );
}
