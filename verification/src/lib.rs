//! A transactional, multi-indexed store for the inputs consumed by ledger
//! state transitions.
//!
//! The store keeps eight cross-referencing indices consistent under an
//! all-or-nothing write protocol: a forward index from transition identifier
//! to its ordered input identifiers, a reverse index from input identifier to
//! transition identifier, five mutually exclusive per-variant value maps, and
//! a tag index linking record serial numbers to their blinded tags.
//!
//! The backend capability is the [`storage::InputStorage`] trait, whose
//! contracts are stated over the mathematical model in [`model`];
//! [`storage::InputMemory`] is the in-memory backend, and
//! [`store::InputStore`] the cloneable façade over any backend. The laws the
//! operations obey — round trip, tombstone, no-op removal, reverse
//! consistency, exclusive membership — are proved in [`laws`].

pub mod laws;
pub mod memory_map;
pub mod model;
pub mod scalar;
pub mod storage;
pub mod store;
pub mod string_type;
pub mod types;
