//! Verified core of a view-function metadata system.
//!
//! A runtime is assembled from independently authored modules.  Each module
//! exposes read-only queries ("view functions") that outside callers address
//! by a stable 32-byte identifier, and the runtime publishes a self-describing
//! metadata document so that callers can discover the queries and decode
//! their inputs and outputs without the runtime's source code.
//!
//! The crate provides:
//! - hash-derived view-function identifiers and their routing ([`ids`],
//!   [`dispatch`]),
//! - a deduplicating type registry that flattens a graph of type
//!   descriptions into a compact table of integer handles ([`registry`]),
//! - the metadata intermediate representation and its conversion to the
//!   portable, fully interned form ([`types`]),
//! - the assembler that turns a module's query declarations into one
//!   documented metadata group ([`assemble`]).

pub mod assemble;
pub mod dispatch;
pub mod hashing;
pub mod ids;
pub mod registry;
pub mod types;
