//! Errors of the browser protocol.

use vstd::prelude::*;
use crate::text::{decimal, decimal_string};

verus! {

/// Why a browser operation failed.
#[derive(Debug)]
pub enum BrowserError {
    /// Any other failure, with its description.
    Other(String),
    /// A URL used a scheme other than `http` or `https`.
    DisallowedScheme { scheme: String },
    /// A step ran past its time limit.
    Timeout { step: usize, action: String, timeout_ms: u64 },
}

impl BrowserError {
    /// The human-readable text of the error.
    pub open spec fn message_text(&self) -> Seq<char> {
        match self {
            BrowserError::Other(s) => "browser error: "@ + s@,
            BrowserError::DisallowedScheme { scheme } => "disallowed URL scheme '"@ + scheme@
                + "': only http and https are allowed"@,
            BrowserError::Timeout { step, action, timeout_ms } => "browser step "@ + decimal(
                *step as nat,
            ) + " ("@ + action@ + ") timed out after "@ + decimal(*timeout_ms as nat) + "ms"@,
        }
    }

    /// Writes the error as text.
    pub fn message(&self) -> (r: String)
        ensures
            r@ == self.message_text(),
    {
        match self {
            BrowserError::Other(s) => String::from_str("browser error: ").concat(s.as_str()),
            BrowserError::DisallowedScheme { scheme } => String::from_str(
                "disallowed URL scheme '",
            ).concat(scheme.as_str()).concat("': only http and https are allowed"),
            BrowserError::Timeout { step, action, timeout_ms } => {
                let s = decimal_string(*step as u64);
                let t = decimal_string(*timeout_ms);
                String::from_str("browser step ").concat(s.as_str()).concat(" (").concat(
                    action.as_str(),
                ).concat(") timed out after ").concat(t.as_str()).concat("ms")
            },
        }
    }
}

} // verus!
