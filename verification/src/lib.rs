//! Reference lookup and ruling assistant for a tabletop rule set.
//!
//! The library holds the verified core: a record store whose derived
//! full-text index is kept in lockstep with the records, two search
//! strategies over that store (token-OR full-text match and tiered fuzzy
//! match), and the pure parts of the ruling pipeline (grounding-context
//! assembly, prompt construction and response interpretation).

pub mod api;
pub mod config;
pub mod import;
pub mod rule;
pub mod ruling;
pub mod sanitize;
pub mod search;
pub mod sort;
pub mod store;
pub mod text;
pub mod vector;

pub use config::Config;
pub use rule::Rule;
