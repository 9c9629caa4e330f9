//! Errors of secret-reference parsing and resolution.

use vstd::prelude::*;
use crate::text::{char_escape_debug, decimal, decimal_string, escape_debug, join, join_strings, views};

verus! {

/// Why a secret reference or a resolver input was refused.
#[derive(Debug)]
pub enum SecretError {
    /// A path segment was empty.
    EmptySegment { field_name: String },
    /// A path segment held `/`, `?`, `#`, whitespace or a control character.
    InvalidCharacter { field_name: String, ch: char },
    /// An Azure vault name was not 3-24 bytes long.
    AzureNameLength { len: usize },
    /// An Azure vault name held something other than ASCII letters, digits and hyphens.
    AzureNameCharset { name: String },
    /// An Azure vault name started or ended with a hyphen.
    AzureNameHyphenEdge,
    /// An Azure vault name held two hyphens in a row.
    AzureNameDoubleHyphen,
    /// A 1Password reference did not start with `op://`.
    OpMissingPrefix,
    /// A 1Password reference did not have exactly three path segments.
    OpMalformed { reference: String },
    /// Neither a service-account token nor a Connect token and host was given.
    OpCredentialsMissing,
    /// The 1Password API answered with a status outside 200-299.
    OpHttpStatus { status: u16, body: String },
    /// The 1Password API response had no `fields` array.
    OpFieldsMissing,
    /// No field of the 1Password item matched the requested field.
    OpFieldNotFound { field: String, vault: String, item: String, available: Vec<String> },
    /// A Vault reference did not start with `vault://`.
    VaultMissingPrefix,
    /// A Vault reference had no `#field` suffix.
    VaultMissingField { reference: String },
    /// A Vault reference had an empty field after `#`.
    VaultEmptyField { reference: String },
    /// A Vault reference had fewer than two path segments.
    VaultMalformed { reference: String },
    /// `VAULT_ADDR` or `VAULT_TOKEN` was missing or empty.
    VaultCredentialsMissing,
    /// The Vault secret had no key equal to the requested field.
    VaultFieldNotFound { field: String, mount: String, path: String, available: Vec<String> },
}

impl SecretError {
    /// The human-readable text of the error.
    pub open spec fn message_text(&self) -> Seq<char> {
        match self {
            SecretError::EmptySegment { field_name } => field_name@ + " must not be empty"@,
            SecretError::InvalidCharacter { field_name, ch } => field_name@
                + " contains invalid character '"@ + char_escape_debug(*ch)
                + "' \u{2014} must not contain '/', '?', '#', whitespace, or control characters"@,
            SecretError::AzureNameLength { len } => "Azure vault name must be 3-24 characters long, got "@
                + decimal(*len as nat) + " characters"@,
            SecretError::AzureNameCharset { name } =>
                "Azure vault name must contain only alphanumeric characters and hyphens, got: "@ + name@,
            SecretError::AzureNameHyphenEdge => "Azure vault name must not start or end with a hyphen"@,
            SecretError::AzureNameDoubleHyphen => "Azure vault name must not contain consecutive hyphens"@,
            SecretError::OpMissingPrefix => "invalid 1Password reference: must start with op://"@,
            SecretError::OpMalformed { reference } =>
                "invalid 1Password reference: expected op://vault/item/field, got: "@ + reference@,
            SecretError::OpCredentialsMissing =>
                "1Password credentials not found. Set OP_SERVICE_ACCOUNT_TOKEN, or both OP_CONNECT_TOKEN and OP_CONNECT_HOST environment variables."@,
            SecretError::OpHttpStatus { status, body } => "1Password API returned HTTP "@
                + decimal(*status as nat) + ": "@ + body@,
            SecretError::OpFieldsMissing => "1Password API response missing 'fields' array"@,
            SecretError::OpFieldNotFound { field, vault, item, available } => "field '"@ + field@
                + "' not found in 1Password item '"@ + vault@ + "/"@ + item@
                + "' (available fields: "@ + join(views(available@), ", "@) + ")"@,
            SecretError::VaultMissingPrefix => "invalid Vault reference: must start with vault://"@,
            SecretError::VaultMissingField { reference } =>
                "invalid Vault reference: missing '#field' suffix in "@ + reference@,
            SecretError::VaultEmptyField { reference } =>
                "invalid Vault reference: field after '#' must not be empty in "@ + reference@,
            SecretError::VaultMalformed { reference } =>
                "invalid Vault reference: expected vault://mount/path#field, got: "@ + reference@,
            SecretError::VaultCredentialsMissing =>
                "Vault credentials not found. Set both VAULT_ADDR and VAULT_TOKEN environment variables to use vault:// secret references."@,
            SecretError::VaultFieldNotFound { field, mount, path, available } => "field '"@ + field@
                + "' not found in Vault secret '"@ + mount@ + "/"@ + path@
                + "' (available fields: "@ + join(views(available@), ", "@) + ")"@,
        }
    }

    /// Writes the error as text.
    pub fn message(&self) -> (r: String)
        ensures
            r@ == self.message_text(),
    {
        match self {
            SecretError::EmptySegment { field_name } => {
                String::from_str(field_name.as_str()).concat(" must not be empty")
            },
            SecretError::InvalidCharacter { field_name, ch } => {
                let esc = escape_debug(*ch);
                String::from_str(field_name.as_str()).concat(" contains invalid character '").concat(
                    esc.as_str(),
                ).concat(
                    "' \u{2014} must not contain '/', '?', '#', whitespace, or control characters",
                )
            },
            SecretError::AzureNameLength { len } => {
                let digits = decimal_string(*len as u64);
                String::from_str("Azure vault name must be 3-24 characters long, got ").concat(
                    digits.as_str(),
                ).concat(" characters")
            },
            SecretError::AzureNameCharset { name } => {
                String::from_str(
                    "Azure vault name must contain only alphanumeric characters and hyphens, got: ",
                ).concat(name.as_str())
            },
            SecretError::AzureNameHyphenEdge => {
                String::from_str("Azure vault name must not start or end with a hyphen")
            },
            SecretError::AzureNameDoubleHyphen => {
                String::from_str("Azure vault name must not contain consecutive hyphens")
            },
            SecretError::OpMissingPrefix => {
                String::from_str("invalid 1Password reference: must start with op://")
            },
            SecretError::OpMalformed { reference } => {
                String::from_str("invalid 1Password reference: expected op://vault/item/field, got: ").concat(
                    reference.as_str(),
                )
            },
            SecretError::OpCredentialsMissing => {
                String::from_str(
                    "1Password credentials not found. Set OP_SERVICE_ACCOUNT_TOKEN, or both OP_CONNECT_TOKEN and OP_CONNECT_HOST environment variables.",
                )
            },
            SecretError::OpHttpStatus { status, body } => {
                let digits = decimal_string(*status as u64);
                String::from_str("1Password API returned HTTP ").concat(digits.as_str()).concat(
                    ": ",
                ).concat(body.as_str())
            },
            SecretError::OpFieldsMissing => {
                String::from_str("1Password API response missing 'fields' array")
            },
            SecretError::OpFieldNotFound { field, vault, item, available } => {
                let listed = join_strings(available, ", ");
                String::from_str("field '").concat(field.as_str()).concat(
                    "' not found in 1Password item '",
                ).concat(vault.as_str()).concat("/").concat(item.as_str()).concat(
                    "' (available fields: ",
                ).concat(listed.as_str()).concat(")")
            },
            SecretError::VaultMissingPrefix => {
                String::from_str("invalid Vault reference: must start with vault://")
            },
            SecretError::VaultMissingField { reference } => {
                String::from_str("invalid Vault reference: missing '#field' suffix in ").concat(
                    reference.as_str(),
                )
            },
            SecretError::VaultEmptyField { reference } => {
                String::from_str("invalid Vault reference: field after '#' must not be empty in ").concat(
                    reference.as_str(),
                )
            },
            SecretError::VaultMalformed { reference } => {
                String::from_str("invalid Vault reference: expected vault://mount/path#field, got: ").concat(
                    reference.as_str(),
                )
            },
            SecretError::VaultCredentialsMissing => {
                String::from_str(
                    "Vault credentials not found. Set both VAULT_ADDR and VAULT_TOKEN environment variables to use vault:// secret references.",
                )
            },
            SecretError::VaultFieldNotFound { field, mount, path, available } => {
                let listed = join_strings(available, ", ");
                String::from_str("field '").concat(field.as_str()).concat(
                    "' not found in Vault secret '",
                ).concat(mount.as_str()).concat("/").concat(path.as_str()).concat(
                    "' (available fields: ",
                ).concat(listed.as_str()).concat(")")
            },
        }
    }
}

} // verus!
