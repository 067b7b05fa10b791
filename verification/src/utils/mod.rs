//! Small helpers shared by the codec.

pub mod num;
