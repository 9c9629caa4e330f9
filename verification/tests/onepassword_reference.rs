use earl::secrets::onepassword::OpReference;

#[test]
fn onepassword_parse_valid_reference() {
    let r = OpReference::parse("op://my-vault/my-item/password").unwrap();
    assert_eq!(r.vault, "my-vault");
    assert_eq!(r.item, "my-item");
    assert_eq!(r.field, "password");
}

#[test]
fn parse_rejects_too_few_segments() {
    let err = OpReference::parse("op://vault/item").unwrap_err();
    assert!(err.message().contains("invalid"));
}

#[test]
fn onepassword_parse_rejects_empty_path() {
    let err = OpReference::parse("op://").unwrap_err();
    assert!(err.message().contains("invalid"));
}

#[test]
fn onepassword_parse_rejects_wrong_scheme() {
    let err = OpReference::parse("vault://a/b/c").unwrap_err();
    assert!(err.message().contains("invalid"));
}
