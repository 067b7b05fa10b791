//! An in-memory representation of SPIR-V modules, a builder that assembles
//! well-formed modules step by step, and a codec between the representation
//! and the binary word stream.

pub mod binary;
pub mod grammar;
pub mod mr;
pub mod spirv;
pub mod utils;
