//! The jagged layout: columns of different heights laid end to end as one polynomial.
pub mod accepted;
pub mod bound;
pub mod bundle;
pub mod claims;
pub mod commit;
pub mod coordinates;
pub mod dense;
pub mod groups;
pub mod hash_bind;
pub mod layout;
pub mod linear;
pub mod opening;
pub mod outer;
pub mod packing;
pub mod prove;
pub mod rounds;
