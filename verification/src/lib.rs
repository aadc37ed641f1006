//! Program generation and bookkeeping for a coverage-guided system-call fuzzer.

pub mod analyze;
pub mod config;
pub mod corpus;
pub mod feedback;
pub mod flag;
pub mod fuzzer;
pub mod gen;
pub mod num;
pub mod plan;
pub mod prog;
pub mod report;
pub mod rng;
pub mod script;
pub mod state;
pub mod stats;
pub mod target;
pub mod text;
pub mod types;
pub mod typing;
pub mod valid;
pub mod value;
