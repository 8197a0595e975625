//! Verified building blocks of a shard-level polynomial commitment scheme over
//! the KoalaBear field.

pub mod air;
pub mod arith;
pub mod dft;
pub mod draws;
pub mod ext;
pub mod felt;
pub mod jagged;
pub mod machine;
pub mod merkle;
pub mod mle;
pub mod multilinear;
pub mod prime;
pub mod quartic;
pub mod ring;
pub mod selection;
pub mod septic;
pub mod shard;
pub mod text;
pub mod transcript;
pub mod whir;
