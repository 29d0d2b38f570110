//! Filtering and transforming agent output text before it is delivered.
//!
//! An [`OutputFilter`] holds an ordered chain of [`FilterRule`]s (trimming, whitespace
//! collapsing, regex removal and replacement, truncation, case conversion, line filtering,
//! prefixes and suffixes) and applies them to a text in one pass.
//!
//! Modules:
//! - [`text`]: the character-level model of texts (whitespace, words, lines, trimming) and the
//!   executable operations on them;
//! - [`pattern`]: regular expressions, through the `regex` crate;
//! - [`rule`]: the rules and what each does to a text;
//! - [`filter`]: the rule chain, its application and validation;
//! - [`laws`]: properties of the library as a whole.

pub mod filter;
pub mod laws;
pub mod pattern;
pub mod rule;
pub mod text;

pub use filter::{InvalidRuleError, OutputFilter};
pub use rule::FilterRule;
