//! Audits Rust source for escape-hatch (`unsafe`) constructs.
//!
//! The core is a classification visitor over a parsed source tree
//! ([`checks`]): it finds every syntactic carrier of the escape marker —
//! functions, blocks, impls, traits, trait and impl methods, and flagged
//! declarative annotations — and collects the occurrences into a
//! de-duplicated finding set. [`check_git`] and [`scan`] fold per-file
//! finding sets over the eligible files of a checkout or package target,
//! and [`reports`] wraps the outcome so that a `passed` status can never
//! coexist with a non-empty finding set.
//!
//! Parsing, checkout handling and report serialization live outside the
//! library: callers hand in plain trees of [`checks::SourceNode`] and read
//! plain values back.

pub mod check_git;
pub mod checks;
pub mod reports;
pub mod scan;
