//! A feedforward neural-network engine over saturating fixed-point scalars:
//! layer composition, per-neuron weight storage, forward propagation and
//! gradient-descent backpropagation, all verified.

pub mod activation_functions;
pub mod fixed;
pub mod layer;
pub mod network;
pub mod neuron;
pub mod weight_functions;
