use earl::secrets::error::SecretError;
use earl::secrets::onepassword::{OpAuth, OpField, OpReference, OpResolver};
use earl::secrets::vault::{VaultReference, VaultResolver};

fn op_ref() -> OpReference {
    OpReference::parse("op://vault/item/password").unwrap()
}

fn field(label: Option<&str>, id: Option<&str>, value: Option<&str>) -> OpField {
    OpField {
        label: label.map(|s| s.to_string()),
        id: id.map(|s| s.to_string()),
        value: value.map(|s| s.to_string()),
    }
}

#[test]
fn op_auth_prefers_service_account() {
    let auth = OpAuth::from_values(Some("sa".into()), Some("ct".into()), Some("http://h".into())).unwrap();
    assert_eq!(auth.token(), "sa");
    assert_eq!(auth.base_url(), "https://events.1password.com");
    let auth = OpAuth::from_values(Some("".into()), Some("ct".into()), Some("http://h".into())).unwrap();
    assert_eq!(auth.token(), "ct");
    assert_eq!(auth.base_url(), "http://h");
    let err = OpAuth::from_values(None, Some("ct".into()), Some("".into())).unwrap_err();
    assert!(matches!(err, SecretError::OpCredentialsMissing));
    assert!(err.message().contains("OP_SERVICE_ACCOUNT_TOKEN"));
}

#[test]
fn op_item_url_trims_trailing_slashes() {
    let auth = OpAuth::from_values(None, Some("t".into()), Some("https://connect.local///".into())).unwrap();
    assert_eq!(OpResolver::item_url(&auth, &op_ref()), "https://connect.local/v1/vaults/vault/items/item");
    assert_eq!(OpResolver::authorization(&auth), "Bearer t");
    let auth = OpAuth::from_values(Some("s".into()), None, None).unwrap();
    assert_eq!(OpResolver::item_url(&auth, &op_ref()), "https://events.1password.com/v1/vaults/vault/items/item");
}

#[test]
fn op_status_and_scheme() {
    assert!(OpResolver::is_success(200));
    assert!(OpResolver::is_success(299));
    assert!(!OpResolver::is_success(300));
    assert!(!OpResolver::is_success(199));
    let e = OpResolver::status_error(404, "not here".to_string());
    assert_eq!(e.message(), "1Password API returned HTTP 404: not here");
    assert_eq!(OpResolver::new().scheme(), "op");
    assert_eq!(VaultResolver::new().scheme(), "vault");
}

#[test]
fn op_field_is_found_by_label_or_id() {
    let fields = vec![
        field(Some("username"), Some("u1"), Some("alice")),
        field(None, Some("password"), Some("s3cret")),
    ];
    assert_eq!(OpResolver::select_field(&op_ref(), Some(&fields)).unwrap(), "s3cret");
    let r = OpReference::parse("op://vault/item/u1").unwrap();
    assert_eq!(OpResolver::select_field(&r, Some(&fields)).unwrap(), "alice");
}

#[test]
fn op_first_matching_field_decides() {
    let fields = vec![field(Some("password"), None, None), field(Some("password"), None, Some("later"))];
    let err = OpResolver::select_field(&op_ref(), Some(&fields)).unwrap_err();
    assert!(matches!(err, SecretError::OpFieldNotFound { .. }));
}

#[test]
fn op_missing_field_lists_available_fields() {
    let fields = vec![field(Some("username"), Some("u1"), Some("alice")), field(None, Some("notes"), Some("x")), field(None, None, Some("y"))];
    let err = OpResolver::select_field(&op_ref(), Some(&fields)).unwrap_err();
    assert_eq!(
        err.message(),
        "field 'password' not found in 1Password item 'vault/item' (available fields: username, notes)"
    );
    let err = OpResolver::select_field(&op_ref(), None).unwrap_err();
    assert_eq!(err.message(), "1Password API response missing 'fields' array");
}

#[test]
fn vault_credentials_need_both_values() {
    let c = VaultResolver::credentials(Some("https://vault:8200".into()), Some("tok".into())).unwrap();
    assert_eq!(c.addr, "https://vault:8200");
    assert_eq!(c.token, "tok");
    assert!(matches!(
        VaultResolver::credentials(Some("".into()), Some("tok".into())),
        Err(SecretError::VaultCredentialsMissing)
    ));
    assert!(matches!(VaultResolver::credentials(Some("a".into()), None), Err(SecretError::VaultCredentialsMissing)));
}

#[test]
fn vault_field_selection() {
    let r = VaultReference::parse("vault://secret/myapp#api_key").unwrap();
    let data = vec![("user".to_string(), "bob".to_string()), ("api_key".to_string(), "k-123".to_string())];
    assert_eq!(VaultResolver::select_field(&r, &data).unwrap(), "k-123");
    let r = VaultReference::parse("vault://secret/myapp#other").unwrap();
    let err = VaultResolver::select_field(&r, &data).unwrap_err();
    assert_eq!(
        err.message(),
        "field 'other' not found in Vault secret 'secret/myapp' (available fields: user, api_key)"
    );
}

#[test]
fn op_reference_is_checked_before_credentials() {
    let err = OpResolver::prepare_request("op://only/two", None, None, None).unwrap_err();
    assert!(matches!(err, SecretError::OpMalformed { .. }));
    let err = OpResolver::prepare_request("op://v/i/f", None, None, None).unwrap_err();
    assert!(matches!(err, SecretError::OpCredentialsMissing));
    let req = OpResolver::prepare_request("op://v/i/f", None, Some("ct".into()), Some("https://h/".into())).unwrap();
    assert_eq!(req.url, "https://h/v1/vaults/v/items/i");
    assert_eq!(req.authorization, "Bearer ct");
    assert_eq!(req.reference.field, "f");
}

#[test]
fn vault_reference_is_checked_before_credentials() {
    let err = VaultResolver::prepare("vault://secret#f", None, None).unwrap_err();
    assert!(matches!(err, SecretError::VaultMalformed { .. }));
    let err = VaultResolver::prepare("vault://secret/app#f", Some("a".into()), None).unwrap_err();
    assert!(matches!(err, SecretError::VaultCredentialsMissing));
    let (r, c) = VaultResolver::prepare("vault://secret/app#f", Some("a".into()), Some("t".into())).unwrap();
    assert_eq!((r.mount.as_str(), r.path.as_str(), r.field.as_str()), ("secret", "app", "f"));
    assert_eq!((c.addr.as_str(), c.token.as_str()), ("a", "t"));
}
