//! Analyzer core for a repository's commit history along a workload-intensity
//! axis: how much activity falls outside conventional working hours, how the
//! activity concentrates on calendar days, and which authors drive it.
//!
//! The crate owns the deterministic logic: temporal classification of commits,
//! per-day and per-author aggregation, streak and busiest-day derivation, an
//! exact-rational severity score with a labelled band, ranked author lists,
//! and the small parsers around them (alias rules, time filters, the commit
//! stream's line format). Process invocation, file I/O and report rendering
//! live outside the crate.

pub mod alias;
pub mod civil;
pub mod classify;
pub mod commit;
pub mod gitline;
pub mod metrics;
pub mod names;
pub mod pushcheck;
pub mod rank;
pub mod rewrite;
pub mod rfc3339;
pub mod severity;
pub mod streak;
pub mod timefilter;
pub mod timestamp;
pub mod unixtime;

pub use commit::Commit;
pub use timestamp::Timestamp;
