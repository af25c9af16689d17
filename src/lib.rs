//! A hierarchical name registry: nodes addressed by 32-byte digests, each
//! owned by an identity, pointing to a parent node and resolving to a target.
//!
//! Child digests are derived from a leaf label digest and a parent digest;
//! a caller may register under a parent when it owns that parent or one of
//! its ancestors.

pub mod digest;
pub mod store;
pub mod contract;
