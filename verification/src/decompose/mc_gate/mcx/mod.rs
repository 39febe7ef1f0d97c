//! Multi-controlled X synthesis primitives over explicit work qubits.
pub mod clean_v_chain;
pub mod dirty_v_chain;
pub mod one_clean_recursive;
pub mod trivial;
pub mod utils;
