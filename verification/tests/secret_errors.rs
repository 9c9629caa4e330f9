use earl::secrets::error::SecretError;
use earl::secrets::onepassword::OpReference;
use earl::secrets::vault::VaultReference;
use earl::secrets::{validate_azure_vault_name, validate_path_segment};

#[test]
fn path_segment_errors_name_field_and_character() {
    match validate_path_segment("a?b", "vault") {
        Err(SecretError::InvalidCharacter { field_name, ch }) => {
            assert_eq!(field_name, "vault");
            assert_eq!(ch, '?');
        }
        other => panic!("unexpected: {:?}", other),
    }
    let msg = validate_path_segment("x\u{0}", "field").unwrap_err().message();
    assert_eq!(
        msg,
        "field contains invalid character '\\0' \u{2014} must not contain '/', '?', '#', whitespace, or control characters"
    );
    assert_eq!(validate_path_segment("", "item").unwrap_err().message(), "item must not be empty");
}

#[test]
fn unicode_whitespace_and_controls_are_rejected() {
    assert!(validate_path_segment("a\u{a0}b", "f").is_err());
    assert!(validate_path_segment("a\u{2003}b", "f").is_err());
    assert!(validate_path_segment("a\u{9f}b", "f").is_err());
    assert!(validate_path_segment("a\tb", "f").is_err());
    assert!(validate_path_segment("caf\u{e9}", "f").is_ok());
}

#[test]
fn first_bad_character_is_reported() {
    match validate_path_segment("ok/ then?", "f") {
        Err(SecretError::InvalidCharacter { ch, .. }) => assert_eq!(ch, '/'),
        other => panic!("unexpected: {:?}", other),
    }
}

#[test]
fn azure_name_rules() {
    assert_eq!(
        validate_azure_vault_name("ab").unwrap_err().message(),
        "Azure vault name must be 3-24 characters long, got 2 characters"
    );
    assert!(validate_azure_vault_name(&"a".repeat(24)).is_ok());
    // Length is counted in bytes.
    assert!(matches!(validate_azure_vault_name("\u{e9}\u{e9}"), Err(SecretError::AzureNameCharset { .. })));
    assert!(matches!(validate_azure_vault_name("\u{e9}"), Err(SecretError::AzureNameLength { len: 2 })));
    assert!(matches!(validate_azure_vault_name("vault-"), Err(SecretError::AzureNameHyphenEdge)));
    assert_eq!(
        validate_azure_vault_name("my--vault").unwrap_err().message(),
        "Azure vault name must not contain consecutive hyphens"
    );
    assert_eq!(
        validate_azure_vault_name("my.vault").unwrap_err().message(),
        "Azure vault name must contain only alphanumeric characters and hyphens, got: my.vault"
    );
}

#[test]
fn op_reference_edge_cases() {
    let r = OpReference::parse("op:////v//i///f//").unwrap();
    assert_eq!((r.vault.as_str(), r.item.as_str(), r.field.as_str()), ("v", "i", "f"));
    assert!(matches!(OpReference::parse("op:/v/i/f"), Err(SecretError::OpMissingPrefix)));
    assert_eq!(
        OpReference::parse("op://a/b/c/d").unwrap_err().message(),
        "invalid 1Password reference: expected op://vault/item/field, got: op://a/b/c/d"
    );
    assert_eq!(
        OpReference::parse("OP://a/b/c").unwrap_err().message(),
        "invalid 1Password reference: must start with op://"
    );
}

#[test]
fn vault_reference_edge_cases() {
    let r = VaultReference::parse("vault:///secret//a//b/#f").unwrap();
    assert_eq!((r.mount.as_str(), r.path.as_str(), r.field.as_str()), ("secret", "a/b", "f"));
    assert_eq!(
        VaultReference::parse("vault://secret/app#a#b").unwrap_err().message(),
        "field name contains invalid character '#' \u{2014} must not contain '/', '?', '#', whitespace, or control characters"
    );
    assert_eq!(
        VaultReference::parse("vault://secret/app").unwrap_err().message(),
        "invalid Vault reference: missing '#field' suffix in vault://secret/app"
    );
    assert_eq!(
        VaultReference::parse("vault://secret/app#").unwrap_err().message(),
        "invalid Vault reference: field after '#' must not be empty in vault://secret/app#"
    );
    assert_eq!(
        VaultReference::parse("vault://secret#x").unwrap_err().message(),
        "invalid Vault reference: expected vault://mount/path#field, got: vault://secret#x"
    );
    assert_eq!(
        VaultReference::parse("https://x").unwrap_err().message(),
        "invalid Vault reference: must start with vault://"
    );
    match VaultReference::parse("vault://secret/a b#f") {
        Err(SecretError::InvalidCharacter { field_name, ch }) => {
            assert_eq!(field_name, "secret path segment");
            assert_eq!(ch, ' ');
        }
        other => panic!("unexpected: {:?}", other),
    }
}

#[test]
fn references_round_trip() {
    let r = OpReference::parse(&format!("op://{}/{}/{}", "Private", "GitHub", "token")).unwrap();
    assert_eq!((r.vault.as_str(), r.item.as_str(), r.field.as_str()), ("Private", "GitHub", "token"));
    let r = VaultReference::parse(&format!("vault://{}/{}#{}", "kv", "team/app/db", "password")).unwrap();
    assert_eq!((r.mount.as_str(), r.path.as_str(), r.field.as_str()), ("kv", "team/app/db", "password"));
}
