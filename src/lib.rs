//! Digging through recursively nested keyed data with dotted selectors
//! such as `foo.bar.baz` or `$.foo.bar.baz`.
//!
//! The [`Dig`] trait derives the whole walk from one single-step lookup,
//! and `serde_json::Value` implements it.

pub mod dig;
pub mod json;
pub mod laws;
pub mod selector;

pub use dig::{Dig, NamedChildren};
