//! The enterprise layer: identity management (vault selection, seed
//! loading, rotation policy) and SLA bookkeeping.

pub mod identity;
pub mod sla;
