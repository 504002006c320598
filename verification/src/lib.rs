//! Coordination core for a pool of member-owned peer units.
//!
//! A coordinator holds the immutable configuration, a table of in-flight
//! spawn requests keyed by correlation token, and the peer-to-owner
//! registry.  A distribution engine splits pooled value across the
//! registered peers in proportion to their activity weights.

pub mod contract;
pub mod distribution;
pub mod error;
pub mod laws;
pub mod msg;
pub mod order;
pub mod peer;
pub mod state;
