//! Verified core of a small Windows-firewall rule manager.
//!
//! The library models firewall rules as plain records, derives the
//! marker-prefixed rule names, filters and orders rule listings, and
//! gives an in-memory rule store whose operations carry exact contracts.
//! The OS-facing shell around it performs the actual firewall calls.

pub mod listing;
pub mod rule;
pub mod store;
pub mod text;
