//! A deduplicating identity registry.
//!
//! The registry assigns a fresh, globally unique numeric identity to a
//! (tenant, key) pair the first time the pair is seen, and returns that same
//! identity on every later sighting. Keys are syntactically validated before
//! they reach the registry; tenants are opaque strings. Identities come from
//! one shared counter, so they are unique across all tenants.

pub mod laws;
pub mod model;
pub mod service;
