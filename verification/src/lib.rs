//! Verified multi-controlled gate decomposition and circuit canonicalization.
pub mod canonicalize;
pub mod circuit;
pub mod compiler;
pub mod decompose;
pub mod error;
pub mod semantics;
