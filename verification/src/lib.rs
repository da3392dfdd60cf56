//! Verified core of a dormitory conduct-point tracker.
//!
//! Conduct records carry signed point values whose stored sign is decided by
//! the point category, never by the raw input. The library models the record
//! store, its schema migration, search and aggregation over it, and the
//! backup/restore life cycle of the underlying database file, all with proved
//! contracts. The host around the library performs the actual file and
//! database I/O and hands the results here as plain values.

pub mod backup;
pub mod clock;
pub mod config;
pub mod db;
pub mod points;
pub mod record;
pub mod summary;
pub mod text;
