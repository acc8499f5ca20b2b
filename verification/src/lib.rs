//! Recursive file search by name and content: the classification and
//! matching engine, with its contracts.

pub mod analysis;
pub mod candidate;
pub mod order;
pub mod pattern;
pub mod query;
pub mod results;
pub mod settings;
pub mod snippet;
pub mod stats;
pub mod text;
