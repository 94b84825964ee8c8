//! Verified core of a harvester log watcher: log lines are split into typed
//! entries, harvest reports are extracted from them, and both are turned into
//! counter and gauge updates.

pub mod chars;
pub mod decimal;
pub mod entry;
pub mod harvest;
pub mod ingest;
pub mod line;
pub mod metrics;
pub mod timestamp;
