//! Core logic of a dynamic DNS updater: decomposing a fully qualified
//! name into subdomain and zone, locating the A-record to track in a
//! zone's record set, and deciding each reconciliation cycle whether
//! the record must be replaced to match the currently observed IP.

pub mod config;
pub mod domain;
pub mod ip;
pub mod record;
pub mod reconcile;
