//! A timeline of commands for one animatable property.

use vstd::prelude::*;

use crate::num::{clamp_units, Num, UNITS_CAP};
use crate::visual::Easing;

verus! {

/// One timed, eased transition of a property value.
#[derive(Clone, Copy, Debug)]
pub struct TypedCommand<T> {
    pub easing: Easing,
    pub start_time: Num,
    pub end_time: Num,
    pub start_value: T,
    pub end_value: T,
}

/// An ordered list of commands, in insertion order, together with the
/// aggregate earliest start and latest end over all inserted commands.
#[derive(Clone, Debug)]
pub struct CommandTimeline<T> {
    pub start_time: Num,
    pub end_time: Num,
    pub start_value: T,
    pub end_value: T,
    pub commands: Vec<TypedCommand<T>>,
}

/// The earliest start time over the commands, in billionths; the upper
/// saturation bound when there are none.
pub open spec fn agg_start_time<T>(cmds: Seq<TypedCommand<T>>) -> int
    decreases cmds.len(),
{
    if cmds.len() == 0 {
        UNITS_CAP as int
    } else {
        let p = agg_start_time(cmds.drop_last());
        if cmds.last().start_time.units < p {
            cmds.last().start_time.units as int
        } else {
            p
        }
    }
}

/// The value at the earliest start: the value of the first command that
/// attains the minimum start time.
pub open spec fn agg_start_value<T>(cmds: Seq<TypedCommand<T>>, init: T) -> T
    decreases cmds.len(),
{
    if cmds.len() == 0 {
        init
    } else {
        if cmds.last().start_time.units < agg_start_time(cmds.drop_last()) {
            cmds.last().start_value
        } else {
            agg_start_value(cmds.drop_last(), init)
        }
    }
}

/// The latest end time over the commands, in billionths; the lower
/// saturation bound when there are none.
pub open spec fn agg_end_time<T>(cmds: Seq<TypedCommand<T>>) -> int
    decreases cmds.len(),
{
    if cmds.len() == 0 {
        -(UNITS_CAP as int)
    } else {
        let p = agg_end_time(cmds.drop_last());
        if cmds.last().end_time.units > p {
            cmds.last().end_time.units as int
        } else {
            p
        }
    }
}

/// The value at the latest end: the value of the first command that attains
/// the maximum end time.
pub open spec fn agg_end_value<T>(cmds: Seq<TypedCommand<T>>, init: T) -> T
    decreases cmds.len(),
{
    if cmds.len() == 0 {
        init
    } else {
        if cmds.last().end_time.units > agg_end_time(cmds.drop_last()) {
            cmds.last().end_value
        } else {
            agg_end_value(cmds.drop_last(), init)
        }
    }
}

impl<T> CommandTimeline<T> {
    /// Every stored command has its end no earlier than its start, and all
    /// its times strictly inside the saturation range.
    pub open spec fn commands_wf(self) -> bool {
        forall|i: int|
            0 <= i < self.commands@.len() ==> (#[trigger] self.commands@[i]).start_time.strict()
                && self.commands@[i].end_time.strict()
                && self.commands@[i].start_time.units <= self.commands@[i].end_time.units
    }

    /// The aggregate fields agree with the stored commands.
    pub open spec fn inv(self) -> bool {
        &&& self.commands_wf()
        &&& self.start_time.units as int == agg_start_time(self.commands@)
        &&& self.end_time.units as int == agg_end_time(self.commands@)
        &&& self.start_time.bounded()
        &&& self.end_time.bounded()
        &&& self.commands@.len() > 0 ==> self.start_value == agg_start_value(
            self.commands@,
            self.start_value,
        ) && self.end_value == agg_end_value(self.commands@, self.end_value)
    }

    /// Whether any command was inserted.
    pub fn has_commands(&self) -> (r: bool)
        ensures
            r <==> self.commands@.len() > 0,
    {
        self.commands.len() > 0
    }

    /// The aggregate earliest start time.
    pub fn start_time(&self) -> (r: Num)
        ensures
            r == self.start_time,
    {
        self.start_time
    }

    /// The aggregate latest end time.
    pub fn end_time(&self) -> (r: Num)
        ensures
            r == self.end_time,
    {
        self.end_time
    }
}

impl<T: Copy> CommandTimeline<T> {
    /// An empty timeline whose values rest at `initial`.
    pub fn new(initial: T) -> (r: Self)
        ensures
            r.commands@.len() == 0,
            r.start_time.units == UNITS_CAP,
            r.end_time.units == -UNITS_CAP,
            r.start_value == initial,
            r.end_value == initial,
            r.inv(),
    {
        let r = CommandTimeline {
            start_time: Num::max_value(),
            end_time: Num::min_value(),
            start_value: initial,
            end_value: initial,
            commands: Vec::new(),
        };
        r
    }

    /// Append a command. An end before the start is clamped up to the start;
    /// the aggregate start advances only on a strictly earlier start, the
    /// aggregate end only on a strictly later end.
    pub fn add(&mut self, easing: Easing, start_time: Num, end_time: Num, start_value: T, end_value: T)
        requires
            old(self).inv(),
            start_time.strict(),
            end_time.strict(),
        ensures
            final(self).inv(),
            final(self).commands@.len() == old(self).commands@.len() + 1,
            final(self).commands@ == old(self).commands@.push(
                TypedCommand {
                    easing,
                    start_time,
                    end_time: Num {
                        units: if end_time.units < start_time.units {
                            start_time.units
                        } else {
                            end_time.units
                        },
                    },
                    start_value,
                    end_value,
                },
            ),
            final(self).start_time.units == if start_time.units < old(self).start_time.units {
                start_time.units
            } else {
                old(self).start_time.units
            },
            final(self).start_value == if start_time.units < old(self).start_time.units {
                start_value
            } else {
                old(self).start_value
            },
            ({
                let et = if end_time.units < start_time.units {
                    start_time.units
                } else {
                    end_time.units
                };
                &&& final(self).end_time.units == if et > old(self).end_time.units {
                    et
                } else {
                    old(self).end_time.units
                }
                &&& final(self).end_value == if et > old(self).end_time.units {
                    end_value
                } else {
                    old(self).end_value
                }
            }),
    {
        let clamped_end: Num = if end_time.units < start_time.units {
            start_time
        } else {
            end_time
        };
        let cmd = TypedCommand { easing, start_time, end_time: clamped_end, start_value, end_value };
        self.commands.push(cmd);
        proof {
            assert(self.commands@.drop_last() =~= old(self).commands@);
        }
        if start_time.units < self.start_time.units {
            self.start_value = start_value;
            self.start_time = start_time;
        }
        if clamped_end.units > self.end_time.units {
            self.end_value = end_value;
            self.end_time = clamped_end;
        }
        proof {
            let newc = self.commands@;
            let oldc = old(self).commands@;
            assert(forall|i: int| 0 <= i < oldc.len() ==> newc[i] == oldc[i]);
            if start_time.units < old(self).start_time.units {
                assert(agg_start_value(newc, self.start_value) == start_value);
            } else {
                if oldc.len() == 0 {
                    assert(old(self).start_time.units == UNITS_CAP);
                    assert(start_time.units < UNITS_CAP);
                } else {
                    assert(agg_start_value(newc, self.start_value) == agg_start_value(
                        oldc,
                        self.start_value,
                    ));
                }
            }
            let et = cmd.end_time.units;
            if et > old(self).end_time.units {
                assert(agg_end_value(newc, self.end_value) == end_value);
            } else {
                if oldc.len() == 0 {
                    assert(old(self).end_time.units == -(UNITS_CAP as int));
                    assert(et > -(UNITS_CAP as int));
                } else {
                    assert(agg_end_value(newc, self.end_value) == agg_end_value(
                        oldc,
                        self.end_value,
                    ));
                }
            }
        }
    }
}

/// The aggregate start of a well-formed timeline is the least start time of
/// its commands, and the aggregate value belongs to a command attaining it;
/// likewise the aggregate end with the greatest end time. An empty timeline
/// rests at the two saturation bounds.
pub proof fn lemma_aggregate_correctness<T>(t: CommandTimeline<T>)
    requires
        t.inv(),
    ensures
        t.commands@.len() == 0 ==> t.start_time.units == UNITS_CAP && t.end_time.units == -(
        UNITS_CAP as int),
        forall|i: int|
            0 <= i < t.commands@.len() ==> t.start_time.units <= (#[trigger] t.commands@[
                i
            ]).start_time.units,
        forall|i: int|
            0 <= i < t.commands@.len() ==> t.end_time.units >= (#[trigger] t.commands@[
                i
            ]).end_time.units,
        t.commands@.len() > 0 ==> exists|i: int|
            0 <= i < t.commands@.len() && (#[trigger] t.commands@[i]).start_time.units
                == t.start_time.units && t.commands@[i].start_value == t.start_value,
        t.commands@.len() > 0 ==> exists|i: int|
            0 <= i < t.commands@.len() && (#[trigger] t.commands@[i]).end_time.units
                == t.end_time.units && t.commands@[i].end_value == t.end_value,
{
    lemma_agg_start_is_min(t.commands@, t.start_value);
    lemma_agg_end_is_max(t.commands@, t.end_value);
}

/// The start aggregate is the minimum, attained with its value.
proof fn lemma_agg_start_is_min<T>(cmds: Seq<TypedCommand<T>>, init: T)
    requires
        forall|i: int| 0 <= i < cmds.len() ==> (#[trigger] cmds[i]).start_time.strict(),
    ensures
        forall|i: int|
            0 <= i < cmds.len() ==> agg_start_time(cmds) <= (#[trigger] cmds[
                i
            ]).start_time.units,
        cmds.len() > 0 ==> exists|i: int|
            0 <= i < cmds.len() && (#[trigger] cmds[i]).start_time.units == agg_start_time(cmds)
                && cmds[i].start_value == agg_start_value(cmds, init),
    decreases cmds.len(),
{
    if cmds.len() > 0 {
        let d = cmds.drop_last();
        let n = cmds.len() - 1;
        assert(forall|i: int| 0 <= i < d.len() ==> #[trigger] d[i] == cmds[i]);
        lemma_agg_start_is_min(d, init);
        assert forall|i: int|
            0 <= i < cmds.len() implies agg_start_time(cmds) <= (#[trigger] cmds[
            i
        ]).start_time.units by {
            if i < n {
                assert(agg_start_time(d) <= d[i].start_time.units);
            }
        }
        if cmds.last().start_time.units < agg_start_time(d) {
            assert((#[trigger] cmds[n]).start_time.units == agg_start_time(cmds) && cmds[
                n
            ].start_value == agg_start_value(cmds, init));
        } else if d.len() > 0 {
            let j = choose|i: int|
                0 <= i < d.len() && (#[trigger] d[i]).start_time.units == agg_start_time(d) && d[
                    i
                ].start_value == agg_start_value(d, init);
            assert((#[trigger] cmds[j]).start_time.units == agg_start_time(cmds) && cmds[
                j
            ].start_value == agg_start_value(cmds, init));
        } else {
            // a strict start is always below the empty aggregate
            assert(cmds.last().start_time.units < UNITS_CAP);
        }
    }
}

/// The end aggregate is the maximum, attained with its value.
proof fn lemma_agg_end_is_max<T>(cmds: Seq<TypedCommand<T>>, init: T)
    requires
        forall|i: int| 0 <= i < cmds.len() ==> (#[trigger] cmds[i]).end_time.strict(),
    ensures
        forall|i: int|
            0 <= i < cmds.len() ==> agg_end_time(cmds) >= (#[trigger] cmds[i]).end_time.units,
        cmds.len() > 0 ==> exists|i: int|
            0 <= i < cmds.len() && (#[trigger] cmds[i]).end_time.units == agg_end_time(cmds)
                && cmds[i].end_value == agg_end_value(cmds, init),
    decreases cmds.len(),
{
    if cmds.len() > 0 {
        let d = cmds.drop_last();
        let n = cmds.len() - 1;
        assert(forall|i: int| 0 <= i < d.len() ==> #[trigger] d[i] == cmds[i]);
        lemma_agg_end_is_max(d, init);
        assert forall|i: int|
            0 <= i < cmds.len() implies agg_end_time(cmds) >= (#[trigger] cmds[
            i
        ]).end_time.units by {
            if i < n {
                assert(agg_end_time(d) >= d[i].end_time.units);
            }
        }
        if cmds.last().end_time.units > agg_end_time(d) {
            assert((#[trigger] cmds[n]).end_time.units == agg_end_time(cmds) && cmds[n].end_value
                == agg_end_value(cmds, init));
        } else if d.len() > 0 {
            let j = choose|i: int|
                0 <= i < d.len() && (#[trigger] d[i]).end_time.units == agg_end_time(d) && d[
                    i
                ].end_value == agg_end_value(d, init);
            assert((#[trigger] cmds[j]).end_time.units == agg_end_time(cmds) && cmds[j].end_value
                == agg_end_value(cmds, init));
        } else {
            assert(cmds.last().end_time.units > -(UNITS_CAP as int));
        }
    }
}

} // verus!
