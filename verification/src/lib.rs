//! Type-conversion resolution core of a binding generator.
//!
//! The crate keeps a registry of host-language types (each with a capability
//! set and a stable conversion-graph node handle), an arena of foreign-type
//! records with direction-specific conversion rules, and the diagnostics that
//! duplicate declarations and unresolved conversions produce.

pub mod capability;
pub mod error;
pub mod foreign;
pub mod host;
pub mod loc;
pub mod text;
