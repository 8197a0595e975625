//! The curve `y^2 = x^3 + 3z * x - 3` over the septic extension of the field.
pub mod complete;
pub mod curve;
pub mod digest;
pub mod element;
pub mod field;
pub mod frobenius;
pub mod group;
pub mod norm;
pub mod power;
