//! A cellular-automaton simulator configured by a small line-oriented language.
//!
//! The crate is split into the language front end (`dsl`), the grid model
//! (`model`), the simulation engine (`engine`), what a display needs of the
//! library (`display`) and a few helpers (`utils`).

pub mod display;
pub mod dsl;
pub mod engine;
pub mod model;
pub mod utils;
