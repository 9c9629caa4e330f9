use earl::secrets::vault::VaultReference;

#[test]
fn vault_parse_valid_reference() {
    let r = VaultReference::parse("vault://secret/myapp#api_key").unwrap();
    assert_eq!(r.mount, "secret");
    assert_eq!(r.path, "myapp");
    assert_eq!(r.field, "api_key");
}

#[test]
fn parse_nested_path() {
    let r = VaultReference::parse("vault://secret/data/team/app#password").unwrap();
    assert_eq!(r.mount, "secret");
    assert_eq!(r.path, "data/team/app");
    assert_eq!(r.field, "password");
}

#[test]
fn parse_rejects_missing_field() {
    let err = VaultReference::parse("vault://secret/myapp").unwrap_err().message();
    assert!(err.contains("invalid"), "got: {}", err);
}

#[test]
fn parse_rejects_empty_field() {
    let err = VaultReference::parse("vault://secret/myapp#").unwrap_err().message();
    assert!(err.contains("invalid"), "got: {}", err);
}

#[test]
fn vault_parse_rejects_empty_path() {
    let err = VaultReference::parse("vault://#field").unwrap_err().message();
    assert!(err.contains("invalid"), "got: {}", err);
}

#[test]
fn parse_rejects_mount_only() {
    let err = VaultReference::parse("vault://secret#field").unwrap_err().message();
    assert!(err.contains("invalid"), "got: {}", err);
}

#[test]
fn vault_parse_rejects_wrong_scheme() {
    let err = VaultReference::parse("op://vault/item/field").unwrap_err().message();
    assert!(err.contains("invalid"), "got: {}", err);
}

#[test]
fn parse_rejects_empty_uri() {
    let err = VaultReference::parse("vault://").unwrap_err().message();
    assert!(err.contains("invalid"), "got: {}", err);
}

#[test]
fn parse_rejects_question_mark_in_mount() {
    let err = VaultReference::parse("vault://sec?ret/path#field").unwrap_err().message();
    assert!(
        err.contains("invalid character"),
        "got: {err}"
    );
}

#[test]
fn parse_rejects_whitespace_in_path() {
    let err = VaultReference::parse("vault://secret/my path#field").unwrap_err().message();
    assert!(
        err.contains("invalid character"),
        "got: {err}"
    );
}

#[test]
fn parse_rejects_control_char_in_field() {
    let err = VaultReference::parse("vault://secret/path#fi\x00eld").unwrap_err().message();
    assert!(
        err.contains("invalid character"),
        "got: {err}"
    );
}
