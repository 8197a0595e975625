//! Machines: their chips, their keys, and the verification of their proofs.

pub mod accepted;
pub mod chips;
pub mod debug;
pub mod keys;
pub mod numbers;
pub mod setup;
pub mod verify;
