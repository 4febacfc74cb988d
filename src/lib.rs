//! Reconciliation of a device's package listings with a classification
//! database, and the backup and selection exports built on its records.
pub mod text;
pub mod types;
pub mod reconcile;
pub mod export;
pub mod date;
pub mod theme;
pub mod elapsed;
