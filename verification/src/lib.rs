//! A family of replicated counters for independent replicas that mutate a
//! shared value without coordination and reconcile later.
//!
//! The foundation is a grow-only counter ([`GCounter`]) whose per-actor
//! totals only ever increase; two of them compose into a counter that also
//! supports decrements ([`PNCounter`]). Merging replica states is a
//! commutative, associative, idempotent join, and applying a shipped
//! operation is idempotent and order-insensitive, so every replica that has
//! seen the same operations reports the same value.

pub mod actor;
pub mod convergence;
pub mod gcounter;
pub mod pncounter;

pub use crate::actor::Actor;
pub use crate::actor::Dot;
pub use crate::gcounter::GCounter;
pub use crate::pncounter::Dir;
pub use crate::pncounter::Op;
pub use crate::pncounter::PNCounter;
