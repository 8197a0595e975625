//! Verification of shard proofs.
pub mod absorbed;
pub mod accepted;
pub mod agreement;
pub mod batching;
pub mod columns;
pub mod device;
pub mod error;
pub mod fingerprint;
pub mod fractions;
pub mod gkr;
pub mod gkr_prove;
pub mod gkr_rows;
pub mod honest;
pub mod host;
pub mod inputs;
pub mod layer;
pub mod lookup;
pub mod mask;
pub mod names;
pub mod openings;
pub mod outer;
pub mod places;
pub mod points;
pub mod prove;
pub mod prove_shard;
pub mod rebuild;
pub mod residual;
pub mod sumcheck;
pub mod types;
pub mod verify;
pub mod zerocheck;
