//! Circuit decomposition building blocks.
pub mod basis;
pub mod mc_gate;
pub mod mcx;
pub mod mcx_lengths;
pub mod mcx_operands;
pub mod phase_polynomial;
