//! Browser operation templates and steps, as the command schema declares them.

use vstd::prelude::*;

verus! {

/// A browser operation as written in a command template.
#[derive(Debug, Clone)]
pub struct BrowserOperationTemplate;

/// One step of a browser operation.
#[derive(Debug, Clone)]
pub struct BrowserStep;

} // verus!
