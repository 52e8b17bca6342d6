//! Static code review: language classification, rule-based detection of
//! issues and suggestions, a bounded quality score, auxiliary analyses, a
//! review memory store and patch artifacts.

pub mod text;
pub mod language;
pub mod rules;
pub mod analyzer;
pub mod score;
pub mod compat;
pub mod advisory;
pub mod memory;
pub mod review;
pub mod walk;
