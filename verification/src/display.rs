//! What a display needs of the library: the picture of a world, the keys
//! that steer a run, and what a run does with them.

pub mod graphics;
pub mod input;
pub mod runner;

pub use graphics::Canvas;
pub use input::InputState;
pub use runner::RunControl;
