//! A transform pipeline that turns multilingual lexical-dump records into
//! structured dictionary-entry sets for a dictionary viewer.
//!
//! Several dictionary kinds (plain glossary, extended cross-translation
//! glossary, phonetic dictionary, edition-merged phonetic dictionary) share one
//! ingestion/aggregation/emission skeleton and supply their own filtering,
//! per-record transformation, merging and final-shape logic.  A persistent
//! record cache lets repeated runs over the same raw dataset skip re-parsing,
//! and a fan-out planner enumerates the valid (edition, source, target)
//! combinations that a driver runs.

pub mod diagnostic;
pub mod dict;
pub mod download;
pub mod lang;
pub mod models;
pub mod options;
pub mod strutil;
pub mod yomitan;
