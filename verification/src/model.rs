//! The grid model: positions, agents, the world and its builder.

pub mod agent;
pub mod builder;
pub mod notation;
pub mod placement;
pub mod position;
pub mod world;
