pub mod hasher;
pub mod in_memory;
pub mod traits;

pub use hasher::{BuildFastHasher, FastHasher};
pub use in_memory::{complete_computation, InMemoryTee, PreparedComputation};
pub use traits::{AggregationAlgorithm, ComputationParams, TeeError, TeeGuard};
