//! Structural search over Go sources: the orchestration layer that drives a
//! tree-sitter grammar and query engine, deduplicates what it reports and
//! folds the per-file results into one report.

pub mod engine;
pub mod matcher;
pub mod paths;
pub mod report;
pub mod text;
