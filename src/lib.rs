//! An embedded column store: each column maps fixed-width keys to
//! fixed-width values, folds deltas into values with a merge rule, and
//! mirrors every mutation as a packed record of an append-only log.
pub mod slots;
pub mod merge;
pub mod atom;
pub mod dense;
pub mod error;
pub mod binlog;
pub mod basic;
pub mod scaler;
pub mod db;
