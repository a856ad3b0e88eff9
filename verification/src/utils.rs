//! Helpers shared by the other modules.

pub mod chance;
pub mod color;
pub mod log;
pub mod num;
pub mod text;
pub mod vecs;
