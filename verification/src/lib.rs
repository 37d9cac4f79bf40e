//! A node-graph dataflow runtime: a slot-allocating arena with index reuse,
//! a tagged heterogeneous value cache built on it, and a graph of computation
//! nodes whose ports share cache cells when wired together.

pub mod allocated_vec;
pub mod values;
pub mod cache;
pub mod node;
pub mod value_node;
pub mod passthrough_node;
pub mod vector_node;
pub mod circle_node;
pub mod particle_node;
pub mod app;
