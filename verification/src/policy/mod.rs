//! Policy: what rules say, and what an executor is asked for.
pub mod compiler;
pub mod error;
pub mod fast_match;
pub mod matcher;
pub mod rules;
