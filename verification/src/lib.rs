//! A Byzantine-fault-tolerant agreement and replicated-storage core.
//!
//! The crate models a single consensus domain: a consensus engine that
//! drives operations through propose / prevote / precommit / commit
//! phases and flags Byzantine senders, a Merkle utility for integrity
//! proofs, a replicated key-value storage engine whose mutations are
//! routed through consensus, and a system manager that tracks node
//! health and owns a bounded-retry recovery queue.

pub mod bytes;
pub mod consensus;
pub mod errors;
pub mod hash;
pub mod manager;
pub mod merkle;
pub mod node;
pub mod records;
pub mod storage;
pub mod validate;
