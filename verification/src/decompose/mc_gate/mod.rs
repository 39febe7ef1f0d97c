//! Multi-controlled gate decomposition.
pub mod budget;
pub mod decompose;
pub mod flip_semantics;
pub mod fsim;
pub mod mcx;
pub mod one_qubit;
pub mod operand_pool;
pub mod pauli;
pub mod pauli_interaction;
pub mod phase;
pub mod phase_ops;
pub mod phase_semantics;
pub mod primitives;
pub mod rx_ry;
pub mod rz;
pub mod rz_semantics;
pub mod standard_output;
pub mod swap;
pub mod transformer;
