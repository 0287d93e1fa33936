//! Support counting for sequential patterns.
//!
//! A candidate pattern is supported by a transaction when it occurs in it as
//! an unbroken run of items. The support of a candidate is the number of
//! transactions that support it; candidates below a minimum support are
//! dropped.

pub mod aggregate;
pub mod filtering;
pub mod matcher;
pub mod prefilter;
pub mod support;
pub mod views;
