//! Template catalog support.

pub mod cache;
