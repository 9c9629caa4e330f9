//! Secret-reference parsing, browser-step decisions and template-cache
//! bookkeeping, with their contracts checked by Verus.

pub mod text;
pub mod split;
pub mod secrets;
pub mod browser;
pub mod template;
