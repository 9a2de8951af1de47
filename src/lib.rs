//! Subdomain enumeration: candidate generation, the per-candidate result
//! rules, stage bookkeeping for the pipeline's shutdown, and argument checks.
pub mod text;
pub mod pattern;
pub mod brute;
pub mod context;
pub mod worker;
pub mod args;
pub mod report;
