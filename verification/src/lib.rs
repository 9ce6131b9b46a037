//! A permissioned, hierarchical notes registry.
//!
//! A fixed set of allowlisted writers publish named entries under a two-level
//! namespace (topic, then sub-topic, then note name); anyone can enumerate the
//! namespace or fetch individual entries through bounded, paginated queries.
//! A single owner identity administers the writer allowlist and may hand the
//! role over through a two-phase transfer.
//!
//! The crate is organised bottom-up: [`order`] fixes the lexicographic order
//! every listing follows, [`codec`] builds the order-preserving composite
//! storage keys, [`table`] holds the sorted tables, [`state`] combines them
//! into the registry state, [`execute`] and [`query`] are the two entry
//! surfaces, [`ownership`] carries the transfer protocol, and [`laws`] proves
//! the registry-wide guarantees that tie the operations together.

pub mod codec;
pub mod execute;
pub mod laws;
pub mod order;
pub mod ownership;
pub mod query;
pub mod state;
pub mod table;
pub mod types;
