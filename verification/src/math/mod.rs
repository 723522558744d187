//! Number and vector abstractions the physics is written against.

pub mod scalar;
pub mod sequence;
pub mod vector;
