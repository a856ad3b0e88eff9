//! The simulation engine: fields, sensors, rules, and the tick.

pub mod engine;
pub mod field;
pub mod rules;
pub mod sensor;

pub use engine::Engine;
