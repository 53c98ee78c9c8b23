//! Causal metadata for eventually-consistent, multi-writer key-value stores:
//! version vectors, dots, two causal-order comparators, and a key-value layer
//! that keeps concurrent writes as siblings.
pub mod causal;
pub mod version_vector;
pub mod vector_clock;
pub mod kv;

pub use kv::{KvStore, Value};
pub use vector_clock::VectorClock;
pub use version_vector::{Dot, VersionVector};
