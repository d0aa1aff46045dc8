//! The fixed bundle of ten property timelines owned by one drawable.

use vstd::prelude::*;

use crate::num::{clamp_units, Num, UNITS_CAP};
use crate::timeline::{agg_end_time, agg_start_time, CommandTimeline};
use crate::visual::{BlendingParameters, Color, Pos};

verus! {

/// Everything that can happen to one drawable over time: one timeline for
/// each animatable property, visited in a fixed order (x, y, scale,
/// vector scale, rotation, colour, alpha, blending, horizontal flip,
/// vertical flip).
#[derive(Clone, Debug)]
pub struct CommandTimelineGroup {
    pub x: CommandTimeline<Num>,
    pub y: CommandTimeline<Num>,
    pub scale: CommandTimeline<Num>,
    pub vector_scale: CommandTimeline<Pos>,
    pub rotation: CommandTimeline<Num>,
    pub color: CommandTimeline<Color>,
    pub alpha: CommandTimeline<Num>,
    pub blending_parameters: CommandTimeline<BlendingParameters>,
    pub flip_h: CommandTimeline<bool>,
    pub flip_v: CommandTimeline<bool>,
}

/// The least start time over the ten timelines, in billionths.
pub open spec fn group_start_units(g: CommandTimelineGroup) -> int {
    min2(
        agg_start_time(g.x.commands@),
        min2(
            agg_start_time(g.y.commands@),
            min2(
                agg_start_time(g.scale.commands@),
                min2(
                    agg_start_time(g.vector_scale.commands@),
                    min2(
                        agg_start_time(g.rotation.commands@),
                        min2(
                            agg_start_time(g.color.commands@),
                            min2(
                                agg_start_time(g.alpha.commands@),
                                min2(
                                    agg_start_time(g.blending_parameters.commands@),
                                    min2(
                                        agg_start_time(g.flip_h.commands@),
                                        agg_start_time(g.flip_v.commands@),
                                    ),
                                ),
                            ),
                        ),
                    ),
                ),
            ),
        ),
    )
}

/// The greatest end time over the ten timelines, in billionths.
pub open spec fn group_end_units(g: CommandTimelineGroup) -> int {
    max2(
        agg_end_time(g.x.commands@),
        max2(
            agg_end_time(g.y.commands@),
            max2(
                agg_end_time(g.scale.commands@),
                max2(
                    agg_end_time(g.vector_scale.commands@),
                    max2(
                        agg_end_time(g.rotation.commands@),
                        max2(
                            agg_end_time(g.color.commands@),
                            max2(
                                agg_end_time(g.alpha.commands@),
                                max2(
                                    agg_end_time(g.blending_parameters.commands@),
                                    max2(
                                        agg_end_time(g.flip_h.commands@),
                                        agg_end_time(g.flip_v.commands@),
                                    ),
                                ),
                            ),
                        ),
                    ),
                ),
            ),
        ),
    )
}

/// Whether any of the ten timelines holds a command.
pub open spec fn group_has_commands(g: CommandTimelineGroup) -> bool {
    ||| g.x.commands@.len() > 0
    ||| g.y.commands@.len() > 0
    ||| g.scale.commands@.len() > 0
    ||| g.vector_scale.commands@.len() > 0
    ||| g.rotation.commands@.len() > 0
    ||| g.color.commands@.len() > 0
    ||| g.alpha.commands@.len() > 0
    ||| g.blending_parameters.commands@.len() > 0
    ||| g.flip_h.commands@.len() > 0
    ||| g.flip_v.commands@.len() > 0
}

pub open spec fn min2(a: int, b: int) -> int {
    if a <= b {
        a
    } else {
        b
    }
}

pub open spec fn max2(a: int, b: int) -> int {
    if a >= b {
        a
    } else {
        b
    }
}

impl CommandTimelineGroup {
    /// All ten timelines keep their aggregate invariant, and every stored
    /// numeric value is in range.
    pub open spec fn inv(self) -> bool {
        &&& self.x.inv()
        &&& self.y.inv()
        &&& self.scale.inv()
        &&& self.vector_scale.inv()
        &&& self.rotation.inv()
        &&& self.color.inv()
        &&& self.alpha.inv()
        &&& self.blending_parameters.inv()
        &&& self.flip_h.inv()
        &&& self.flip_v.inv()
        &&& scalar_values_bounded(self.x.commands@)
        &&& scalar_values_bounded(self.y.commands@)
        &&& scalar_values_bounded(self.scale.commands@)
        &&& scalar_values_bounded(self.rotation.commands@)
        &&& scalar_values_bounded(self.alpha.commands@)
        &&& vector_values_bounded(self.vector_scale.commands@)
    }

    /// Whether the group holds no command at all.
    pub open spec fn is_empty(self) -> bool {
        !group_has_commands(self)
    }

    /// A group with ten empty timelines.
    pub fn new() -> (r: Self)
        ensures
            r.inv(),
            r.is_empty(),
            r.x.commands@.len() == 0,
            r.y.commands@.len() == 0,
            r.scale.commands@.len() == 0,
            r.vector_scale.commands@.len() == 0,
            r.rotation.commands@.len() == 0,
            r.color.commands@.len() == 0,
            r.alpha.commands@.len() == 0,
            r.blending_parameters.commands@.len() == 0,
            r.flip_h.commands@.len() == 0,
            r.flip_v.commands@.len() == 0,
    {
        CommandTimelineGroup {
            x: CommandTimeline::new(Num::zero()),
            y: CommandTimeline::new(Num::zero()),
            scale: CommandTimeline::new(Num::zero()),
            vector_scale: CommandTimeline::new(Pos { x: Num::zero(), y: Num::zero() }),
            rotation: CommandTimeline::new(Num::zero()),
            color: CommandTimeline::new(Color { red: 0, green: 0, blue: 0, alpha: 0 }),
            alpha: CommandTimeline::new(Num::zero()),
            blending_parameters: CommandTimeline::new(BlendingParameters::inherit()),
            flip_h: CommandTimeline::new(false),
            flip_v: CommandTimeline::new(false),
        }
    }

    /// Whether any timeline holds a command.
    pub fn has_commands(&self) -> (r: bool)
        ensures
            r == group_has_commands(*self),
    {
        self.x.has_commands() || self.y.has_commands() || self.scale.has_commands()
            || self.vector_scale.has_commands() || self.rotation.has_commands()
            || self.color.has_commands() || self.alpha.has_commands()
            || self.blending_parameters.has_commands() || self.flip_h.has_commands()
            || self.flip_v.has_commands()
    }

    /// The least start time over the ten timelines.
    pub fn start_time(&self) -> (r: Num)
        requires
            self.inv(),
        ensures
            r.units as int == group_start_units(*self),
            r.bounded(),
    {
        self.x.start_time().min(
            self.y.start_time().min(
                self.scale.start_time().min(
                    self.vector_scale.start_time().min(
                        self.rotation.start_time().min(
                            self.color.start_time().min(
                                self.alpha.start_time().min(
                                    self.blending_parameters.start_time().min(
                                        self.flip_h.start_time().min(self.flip_v.start_time()),
                                    ),
                                ),
                            ),
                        ),
                    ),
                ),
            ),
        )
    }

    /// The greatest end time over the ten timelines.
    pub fn end_time(&self) -> (r: Num)
        requires
            self.inv(),
        ensures
            r.units as int == group_end_units(*self),
            r.bounded(),
    {
        self.x.end_time().max(
            self.y.end_time().max(
                self.scale.end_time().max(
                    self.vector_scale.end_time().max(
                        self.rotation.end_time().max(
                            self.color.end_time().max(
                                self.alpha.end_time().max(
                                    self.blending_parameters.end_time().max(
                                        self.flip_h.end_time().max(self.flip_v.end_time()),
                                    ),
                                ),
                            ),
                        ),
                    ),
                ),
            ),
        )
    }

    /// The span from the least start to the greatest end, saturating.
    pub fn duration(&self) -> (r: Num)
        requires
            self.inv(),
        ensures
            r.units as int == clamp_units(group_end_units(*self) - group_start_units(*self)),
            r.bounded(),
    {
        self.end_time().sub_sat(self.start_time())
    }
}

/// Every numeric command value lies in the saturation range.
pub open spec fn scalar_values_bounded(cs: Seq<crate::timeline::TypedCommand<Num>>) -> bool {
    forall|i: int|
        0 <= i < cs.len() ==> (#[trigger] cs[i]).start_value.bounded() && cs[i].end_value.bounded()
}

/// Every vector command component lies in the saturation range.
pub open spec fn vector_values_bounded(cs: Seq<crate::timeline::TypedCommand<Pos>>) -> bool {
    forall|i: int|
        0 <= i < cs.len() ==> (#[trigger] cs[i]).start_value.x.bounded()
            && cs[i].start_value.y.bounded() && cs[i].end_value.x.bounded()
            && cs[i].end_value.y.bounded()
}

/// The span of a group in billionths, saturating.
pub open spec fn group_duration_units(g: CommandTimelineGroup) -> int {
    clamp_units(group_end_units(g) - group_start_units(g))
}

} // verus!
