//! Assembly stage of a header-to-binding generator: takes declarations that a
//! front end has already translated and grouped by source header, and lays
//! them out as a multi-module output package — per-header units plus one
//! aggregator unit with module declarations, capability-gated re-exports and
//! linkage directives.

pub mod caps;
pub mod file;
pub mod ident;
pub mod laws;
pub mod library;
pub mod stmt;
pub mod text;
