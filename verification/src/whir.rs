//! The WHIR polynomial commitment scheme.
pub mod accepted;
pub mod accepted_tower;
pub mod backend;
pub mod completeness;
pub mod config;
pub mod proving;
pub mod queries;
pub mod monomial;
pub mod encode;
pub mod engine;
pub mod flat;
pub mod flat_round;
pub mod fold;
pub mod honest;
pub mod interleaved;
pub mod jagged;
pub mod messages;
pub mod replay;
pub mod resident;
pub mod rounds;
pub mod schedule;
pub mod stacked;
pub mod sumcheck;
pub mod tower;
