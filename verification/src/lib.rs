//! Batch renaming by pattern: a source pattern is matched against path
//! strings, a target pattern gives each match its new path, and a planner
//! turns the pairs into a plan that is checked for conflicts before anything
//! is moved.

pub mod compile;
pub mod grammar;
pub mod matching;
pub mod parse;
pub mod pattern;
pub mod plan;
pub mod report;
pub mod resolve;
pub mod text;
pub mod trusted;
