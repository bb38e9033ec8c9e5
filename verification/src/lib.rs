pub mod aggregation;
pub mod data_pipeline;
pub mod tee_interface;

pub use aggregation::{averaging_dimension, krum_neighbor_count};
pub use data_pipeline::{PacketView, XdpIngress};
pub use tee_interface::{
    complete_computation, AggregationAlgorithm, BuildFastHasher, ComputationParams, FastHasher,
    InMemoryTee, PreparedComputation, TeeError, TeeGuard,
};
