//! Structural canonicalization of circuits.
pub mod canonicalizer;
pub mod classical;
pub mod config;
pub mod labels;
pub mod linear;
pub mod normalized;
pub mod verify;
