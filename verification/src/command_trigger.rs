//! A conditionally activated sub-scope of a sprite's commands.

use vstd::prelude::*;

use crate::num::Num;
use crate::timeline_group::CommandTimelineGroup;

verus! {

/// A timeline group fired by a named condition inside a time window rather
/// than by the master clock. A window end left open in the source rests at
/// the saturation bounds.
#[derive(Clone, Debug)]
pub struct CommandTrigger {
    pub group: CommandTimelineGroup,
    pub name: Vec<u8>,
    pub start_time: Num,
    pub end_time: Num,
    pub group_num: i32,
}

impl CommandTrigger {
    pub open spec fn inv(self) -> bool {
        self.group.inv() && self.start_time.bounded() && self.end_time.bounded()
    }

    /// A fresh trigger with an empty group.
    pub fn new(name: Vec<u8>, start_time: Num, end_time: Num, group_num: i32) -> (r: Self)
        requires
            start_time.bounded(),
            end_time.bounded(),
        ensures
            r.inv(),
            r.group.is_empty(),
            r.name == name,
            r.start_time == start_time,
            r.end_time == end_time,
            r.group_num == group_num,
    {
        CommandTrigger {
            group: CommandTimelineGroup::new(),
            name,
            start_time,
            end_time,
            group_num,
        }
    }
}

} // verus!
