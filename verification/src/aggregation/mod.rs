pub mod shape;

pub use shape::{averaging_dimension, krum_neighbor_count};
