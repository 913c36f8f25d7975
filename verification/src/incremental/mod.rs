//! Incremental compilation support: fingerprints, caches, dependency graphs and queries.

pub mod cache;
pub mod dep_graph;
pub mod fingerprint;
pub mod query;

pub use cache::{Cache, CacheEntry, DiskCache, DiskCacheEntry};
pub use dep_graph::{DepGraph, DepNode};
pub use fingerprint::{Fingerprint, FingerprintBuilder};
pub use query::{QueryEngine, QueryError};
