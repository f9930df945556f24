//! Verified core of a short-name redirector.
//!
//! Short names map to target URLs. A durable [`store::Store`] is the source
//! of truth; a derived [`cache::MappingCache`] serves every lookup; a
//! [`service::Service`] ties the two together and keeps them consistent:
//! writes go to the store first and only then to the cache, reads never
//! touch the store, and a listing bypasses the cache.

pub mod cache;
pub mod service;
pub mod store;
