//! A registry of versioned binary artifacts: a catalog of published
//! (identifier, version) records with semantic-version resolution, a blob
//! store keyed by the same pair, and the service that keeps the two in step.

pub mod version;
pub mod catalog;
pub mod store;
pub mod errors;
pub mod registry;
pub mod config;
pub mod layout;
