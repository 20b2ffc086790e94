//! Per-commit line-change statistics over configured git
//! repositories: walking a branch's commits into records, resolving
//! contributor aliases, restricting records to a date window, and
//! summing each (repo, branch, author) group's insertions and
//! deletions, with the filtering policy and the summary arithmetic
//! verified.

pub mod aggregate;
pub mod config;
pub mod csvenc;
pub mod data;
pub mod datetime;
pub mod output;
pub mod pathspec;
pub mod record;
pub mod strutil;
pub mod walk;
