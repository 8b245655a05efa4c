//! Core of a deterministic SQL test-data generator.
//!
//! Scalar [`value::Value`]s with SQL-style comparison, arithmetic and
//! concatenation; an exact two-variant integer [`number::Number`] tower;
//! compile-time constant folding for the built-in SQL functions; the
//! compiled-plan and per-row state types; and the dialect-specific helpers
//! used when synthesising table schemas.

pub mod bytes;
pub mod error;
pub mod number;
pub mod ops;
pub mod plan;
pub mod schema;
pub mod timestamp;
pub mod value;
