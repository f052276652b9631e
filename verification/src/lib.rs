//! Scoring and prioritising a user's projects: weighted attribute scores,
//! configuration and project tables, prompt and report text, and the
//! request retry policy.

pub mod units;
pub mod text;
pub mod keys;
pub mod table;
pub mod parser;
pub mod request;
pub mod github;
pub mod report;
pub mod prompts;
pub mod ranking;
pub mod usage;
