//! The browser protocol: URL-scheme checks, step-run decisions, history
//! navigation and accessibility snapshots.

pub mod error;
pub mod schema;
pub mod snapshot;
pub mod steps;

use vstd::prelude::*;
use crate::browser::schema::BrowserStep;

verus! {

/// Prepared browser command data, ready for execution.
#[derive(Debug, Clone)]
pub struct PreparedBrowserCommand {
    pub session_id: Option<String>,
    pub headless: bool,
    pub timeout_ms: u64,
    pub on_failure_screenshot: bool,
    pub steps: Vec<BrowserStep>,
}

} // verus!
