//! How a run answers the keys and the clock.
//!
//! The driver of a run reads the keys and the clock, asks here what to do,
//! and does it: it advances the engine, changes the speed, prints.

use vstd::prelude::*;
use crate::display::input::InputState;

verus! {

/// Where a run stands: paused or not, whether one step is due while paused,
/// and how many ticks were run.
#[derive(Debug, Clone, Copy, PartialEq, Eq, Structural)]
pub struct RunControl {
    pub paused: bool,
    pub step_mode: bool,
    pub tick_count: u64,
}

/// What the keys ask the driver to do at once.
#[derive(Debug, Clone, Copy, PartialEq, Eq, Structural)]
pub struct KeyActions {
    /// The run was paused or resumed.
    pub pause_toggled: bool,
    /// Advance the engine by one tick now.
    pub step_now: bool,
    /// A reset was asked for.
    pub reset: bool,
    /// Shorten the time between ticks.
    pub faster: bool,
    /// Lengthen the time between ticks.
    pub slower: bool,
}

impl RunControl {
    /// The run after the keys `input`. The pause key turns the pause round
    /// and drops a step that was due. The step key, seen after that, asks
    /// for one step: while paused the step becomes due, else it is taken at
    /// once.
    pub open spec fn after_keys(self, input: InputState) -> RunControl {
        let paused = if input.space_pressed {
            !self.paused
        } else {
            self.paused
        };
        RunControl {
            paused,
            step_mode: if input.step_pressed && paused {
                true
            } else if input.space_pressed {
                false
            } else {
                self.step_mode
            },
            ..self
        }
    }

    /// What the keys `input` ask the driver to do at once.
    pub open spec fn actions_for(self, input: InputState) -> KeyActions {
        KeyActions {
            pause_toggled: input.space_pressed,
            step_now: input.step_pressed && !self.after_keys(input).paused,
            reset: input.r_pressed,
            faster: input.fast_pressed,
            slower: input.slow_pressed,
        }
    }

    /// Whether the engine is to advance now: while paused, if a step is due;
    /// else if the clock says that the tick time has passed.
    pub open spec fn steps_now(self, tick_due: bool) -> bool {
        if self.paused {
            self.step_mode
        } else {
            tick_due
        }
    }

    /// The run after one more tick; the count stops at its largest value.
    pub open spec fn after_tick(self) -> RunControl {
        RunControl {
            tick_count: if self.tick_count < u64::MAX {
                (self.tick_count + 1) as u64
            } else {
                self.tick_count
            },
            ..self
        }
    }

    /// A run at its start: not paused, no tick run.
    pub fn new() -> (run: Self)
        ensures
            run == (RunControl { paused: false, step_mode: false, tick_count: 0 }),
    {
        Self { paused: false, step_mode: false, tick_count: 0 }
    }

    /// Takes the keys in and says what the driver is to do at once.
    pub fn handle_input(&mut self, input: &InputState) -> (actions: KeyActions)
        ensures
            *final(self) == old(self).after_keys(*input),
            actions == old(self).actions_for(*input),
    {
        let mut step_now = false;
        if input.toggle_pause_requested() {
            self.paused = !self.paused;
            self.step_mode = false;
        }
        if input.step_requested() {
            if self.paused {
                self.step_mode = true;
            } else {
                step_now = true;
            }
        }
        KeyActions {
            pause_toggled: input.toggle_pause_requested(),
            step_now,
            reset: input.reset_requested(),
            faster: input.speed_up_requested(),
            slower: input.speed_down_requested(),
        }
    }

    /// Says whether the engine is to advance now, given whether the tick
    /// time has passed. A step that was due while paused is used up.
    pub fn update_simulation(&mut self, tick_due: bool) -> (step: bool)
        ensures
            step == old(self).steps_now(tick_due),
            *final(self) == (RunControl {
                step_mode: old(self).step_mode && !old(self).paused,
                ..*old(self)
            }),
    {
        if self.paused {
            if self.step_mode {
                self.step_mode = false;
                true
            } else {
                false
            }
        } else {
            tick_due
        }
    }

    /// Counts one tick and says whether the statistics are due, which they
    /// are every hundred ticks.
    pub fn force_step(&mut self) -> (statistics_due: bool)
        ensures
            *final(self) == old(self).after_tick(),
            statistics_due == (final(self).tick_count % 100 == 0),
    {
        if self.tick_count < u64::MAX {
            self.tick_count += 1;
        }
        self.tick_count % 100 == 0
    }

    /// Whether the run is over: no agent is alive.
    pub fn check_end_conditions(&self, alive: usize) -> (over: bool)
        ensures
            over == (alive == 0),
    {
        alive == 0
    }
}

} // verus!
