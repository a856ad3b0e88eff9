//! The keys that steer a running simulation.

use vstd::prelude::*;

verus! {

/// Which of the control keys are pressed.
#[derive(Default, Debug, Clone, Copy, PartialEq, Eq, Structural)]
pub struct InputState {
    /// Space: pause or resume.
    pub space_pressed: bool,
    /// R: reset.
    pub r_pressed: bool,
    /// Escape: quit.
    pub escape_pressed: bool,
    /// S: one step.
    pub step_pressed: bool,
    /// F: faster.
    pub fast_pressed: bool,
    /// L: slower.
    pub slow_pressed: bool,
}

impl InputState {
    /// No key is pressed.
    pub open spec fn idle() -> InputState {
        InputState {
            space_pressed: false,
            r_pressed: false,
            escape_pressed: false,
            step_pressed: false,
            fast_pressed: false,
            slow_pressed: false,
        }
    }

    /// The state in which no key is pressed.
    pub fn new() -> (state: Self)
        ensures
            state == Self::idle(),
    {
        Self {
            space_pressed: false,
            r_pressed: false,
            escape_pressed: false,
            step_pressed: false,
            fast_pressed: false,
            slow_pressed: false,
        }
    }

    /// Whether the user wants to quit.
    pub fn should_quit(&self) -> (r: bool)
        ensures
            r == self.escape_pressed,
    {
        self.escape_pressed
    }

    /// Whether the user asked to pause or to resume.
    pub fn toggle_pause_requested(&self) -> (r: bool)
        ensures
            r == self.space_pressed,
    {
        self.space_pressed
    }

    /// Whether the user asked for a reset.
    pub fn reset_requested(&self) -> (r: bool)
        ensures
            r == self.r_pressed,
    {
        self.r_pressed
    }

    /// Whether the user asked for a single step.
    pub fn step_requested(&self) -> (r: bool)
        ensures
            r == self.step_pressed,
    {
        self.step_pressed
    }

    /// Whether the user asked for more speed.
    pub fn speed_up_requested(&self) -> (r: bool)
        ensures
            r == self.fast_pressed,
    {
        self.fast_pressed
    }

    /// Whether the user asked for less speed.
    pub fn speed_down_requested(&self) -> (r: bool)
        ensures
            r == self.slow_pressed,
    {
        self.slow_pressed
    }
}

} // verus!
