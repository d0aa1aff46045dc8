//! A repeated sub-scope of a sprite's commands.

use vstd::prelude::*;

use crate::num::{clamp_units, Num};
use crate::timeline_group::{
    group_duration_units, group_start_units, CommandTimelineGroup,
};

verus! {

/// A timeline group replayed a fixed number of times from a local start.
#[derive(Clone, Debug)]
pub struct CommandLoop {
    pub group: CommandTimelineGroup,
    pub loop_start_time: Num,
    pub total_iterations: u32,
}

/// The absolute start of a loop: its local start shifted by its group's
/// earliest command, saturating.
pub open spec fn loop_start_units(l: CommandLoop) -> int {
    clamp_units(l.loop_start_time.units + group_start_units(l.group))
}

/// The absolute end of one iteration of a loop, saturating.
pub open spec fn loop_end_units(l: CommandLoop) -> int {
    clamp_units(loop_start_units(l) + group_duration_units(l.group))
}

impl CommandLoop {
    pub open spec fn inv(self) -> bool {
        self.group.inv() && self.loop_start_time.bounded()
    }

    /// A fresh loop. Asking for `repeat_count` repeats still plays the loop
    /// once, so the total is one more than the repeat count.
    pub fn new(start_time: Num, repeat_count: u32) -> (r: Self)
        requires
            start_time.bounded(),
            repeat_count < u32::MAX,
        ensures
            r.inv(),
            r.group.is_empty(),
            r.loop_start_time == start_time,
            r.total_iterations == repeat_count + 1,
    {
        CommandLoop {
            group: CommandTimelineGroup::new(),
            loop_start_time: start_time,
            total_iterations: repeat_count + 1,
        }
    }

    /// The absolute start of the loop.
    pub fn start_time(&self) -> (r: Num)
        requires
            self.inv(),
        ensures
            r.units as int == loop_start_units(*self),
            r.bounded(),
    {
        self.loop_start_time.add_sat(self.group.start_time())
    }

    /// The absolute end of one iteration of the loop.
    pub fn end_time(&self) -> (r: Num)
        requires
            self.inv(),
        ensures
            r.units as int == loop_end_units(*self),
            r.bounded(),
    {
        self.start_time().add_sat(self.group.duration())
    }
}

} // verus!
