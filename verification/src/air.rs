//! The chips of a machine, and what is known of their columns.

pub mod machine;
pub mod picus;
