//! Resolution of environment variables from structured configuration
//! sources: locating configuration files, extracting and merging values
//! across sources, coercing structured values to environment-variable
//! strings, expanding `$NAME` references, and gating automatic export
//! behind a persisted whitelist of trusted configuration file paths.

pub mod coerce;
pub mod env_map;
pub mod expand;
pub mod locate;
pub mod merge;
pub mod path_guard;
pub mod query;
pub mod resolve;
pub mod shell;
pub mod strutil;
pub mod trust;
pub mod value;

