//! Storyboard elements: sprites, animations, samples, and videos.

use vstd::prelude::*;

use crate::command_loop::{loop_end_units, loop_start_units, CommandLoop};
use crate::command_trigger::CommandTrigger;
use crate::num::{clamp_units, u8_plain_ok, u8_plain_val, Num};
use crate::text::bytes_eq;
use crate::timeline_group::{
    group_duration_units, group_end_units, group_has_commands, group_start_units,
    CommandTimelineGroup,
};
use crate::visual::{Anchor, Pos};
use vstd::string::StringSliceAdditionalSpecFns;

verus! {

/// A drawable sprite: a timeline group of its own plus nested loops and
/// triggers.
#[derive(Clone, Debug)]
pub struct StoryboardSprite {
    pub origin: Anchor,
    pub initial_pos: Pos,
    pub timeline_group: CommandTimelineGroup,
    pub loops: Vec<CommandLoop>,
    pub triggers: Vec<CommandTrigger>,
}

/// Whether a sprite holds any command, in its own group or in a loop.
pub open spec fn sprite_has_commands(s: StoryboardSprite) -> bool {
    group_has_commands(s.timeline_group) || exists|i: int|
        0 <= i < s.loops@.len() && group_has_commands((#[trigger] s.loops@[i]).group)
}

/// The least absolute start over the sprite's own group and its loops.
pub open spec fn fold_min_loops(loops: Seq<CommandLoop>, init: int) -> int
    decreases loops.len(),
{
    if loops.len() == 0 {
        init
    } else {
        let p = fold_min_loops(loops.drop_last(), init);
        if loop_start_units(loops.last()) < p {
            loop_start_units(loops.last())
        } else {
            p
        }
    }
}

/// The greatest absolute end over the sprite's own group and its loops.
pub open spec fn fold_max_loop_ends(loops: Seq<CommandLoop>, init: int) -> int
    decreases loops.len(),
{
    if loops.len() == 0 {
        init
    } else {
        let p = fold_max_loop_ends(loops.drop_last(), init);
        if loop_end_units(loops.last()) > p {
            loop_end_units(loops.last())
        } else {
            p
        }
    }
}

/// The end a loop is displayed until: its start plus its span over all
/// iterations, saturating.
pub open spec fn loop_display_end_units(l: CommandLoop) -> int {
    clamp_units(
        loop_start_units(l) + clamp_units(
            group_duration_units(l.group) * l.total_iterations,
        ),
    )
}

/// The greatest display end over the sprite's loops.
pub open spec fn fold_max_display_ends(loops: Seq<CommandLoop>, init: int) -> int
    decreases loops.len(),
{
    if loops.len() == 0 {
        init
    } else {
        let p = fold_max_display_ends(loops.drop_last(), init);
        if loop_display_end_units(loops.last()) > p {
            loop_display_end_units(loops.last())
        } else {
            p
        }
    }
}

pub open spec fn earliest_transform_units(s: StoryboardSprite) -> int {
    fold_min_loops(s.loops@, group_start_units(s.timeline_group))
}

pub open spec fn sprite_end_units(s: StoryboardSprite) -> int {
    fold_max_loop_ends(s.loops@, group_end_units(s.timeline_group))
}

pub open spec fn sprite_display_end_units(s: StoryboardSprite) -> int {
    fold_max_display_ends(s.loops@, group_end_units(s.timeline_group))
}

/// The earliest first-inserted alpha command over the sprite's own group and
/// its loops, paired with whether it fades in from zero. Earlier entries win
/// ties, the own group before any loop, loops in order.
pub open spec fn upd_alpha(acc: Option<(int, bool)>, t: int, z: bool) -> Option<(int, bool)> {
    match acc {
        Option::None => Option::Some((t, z)),
        Option::Some((mt, mz)) => if t < mt {
            Option::Some((t, z))
        } else {
            acc
        },
    }
}

/// The candidate from the sprite's own group: its first-inserted alpha
/// command, if any.
pub open spec fn own_alpha_candidate(s: StoryboardSprite) -> Option<(int, bool)> {
    if s.timeline_group.alpha.commands@.len() > 0 {
        let c = s.timeline_group.alpha.commands@[0];
        Option::Some((c.start_time.units as int, c.start_value.units == 0))
    } else {
        Option::None
    }
}

/// Fold the loops' first alpha commands over an accumulator, in order.
pub open spec fn fold_alpha(loops: Seq<CommandLoop>, acc: Option<(int, bool)>) -> Option<
    (int, bool),
>
    decreases loops.len(),
{
    if loops.len() == 0 {
        acc
    } else {
        let p = fold_alpha(loops.drop_last(), acc);
        let l = loops.last();
        if l.group.alpha.commands@.len() > 0 {
            let c = l.group.alpha.commands@[0];
            upd_alpha(
                p,
                clamp_units(c.start_time.units + l.loop_start_time.units),
                c.start_value.units == 0,
            )
        } else {
            p
        }
    }
}

pub open spec fn min_alpha_candidate(s: StoryboardSprite) -> Option<(int, bool)> {
    fold_alpha(s.loops@, own_alpha_candidate(s))
}

/// When the sprite fades in from zero alpha it is first seen at that fade's
/// start; otherwise at its earliest transform.
pub open spec fn sprite_start_units(s: StoryboardSprite) -> int {
    match min_alpha_candidate(s) {
        Option::Some((t, true)) => t,
        _ => earliest_transform_units(s),
    }
}

impl StoryboardSprite {
    pub open spec fn inv(self) -> bool {
        &&& self.initial_pos.x.bounded()
        &&& self.initial_pos.y.bounded()
        &&& self.timeline_group.inv()
        &&& forall|i: int| 0 <= i < self.loops@.len() ==> (#[trigger] self.loops@[i]).inv()
        &&& forall|i: int| 0 <= i < self.triggers@.len() ==> (#[trigger] self.triggers@[i]).inv()
    }

    /// A fresh sprite with an empty timeline group.
    pub fn new(origin: Anchor, initial_pos: Pos) -> (r: Self)
        requires
            initial_pos.x.bounded(),
            initial_pos.y.bounded(),
        ensures
            r.inv(),
            r.origin == origin,
            r.initial_pos == initial_pos,
            r.timeline_group.is_empty(),
            r.loops@.len() == 0,
            r.triggers@.len() == 0,
    {
        StoryboardSprite {
            origin,
            initial_pos,
            timeline_group: CommandTimelineGroup::new(),
            loops: Vec::new(),
            triggers: Vec::new(),
        }
    }

    /// Whether any command was inserted, in the own group or a loop.
    pub fn has_commands(&self) -> (r: bool)
        ensures
            r == sprite_has_commands(*self),
    {
        if self.timeline_group.has_commands() {
            return true;
        }
        let n = self.loops.len();
        let mut i: usize = 0;
        while i < n
            invariant
                0 <= i <= n,
                n == self.loops@.len(),
                !group_has_commands(self.timeline_group),
                forall|k: int| 0 <= k < i ==> !group_has_commands((#[trigger] self.loops@[k]).group),
            decreases n - i,
        {
            if self.loops[i].group.has_commands() {
                return true;
            }
            i = i + 1;
        }
        false
    }

    /// A sprite is drawn only when it holds a command.
    pub fn is_drawable(&self) -> (r: bool)
        ensures
            r == sprite_has_commands(*self),
    {
        self.has_commands()
    }

    /// The time the sprite is first displayed: a fade-in from zero counts
    /// from the fade's start, anything else from the earliest transform.
    pub fn start_time(&self) -> (r: Num)
        requires
            self.inv(),
        ensures
            r.units as int == sprite_start_units(*self),
            r.bounded(),
    {
        let mut min_alpha: Option<(Num, bool)> = None;
        if self.timeline_group.alpha.commands.len() > 0 {
            let c = self.timeline_group.alpha.commands[0];
            min_alpha = Some((c.start_time, c.start_value.is_zero()));
        }
        let n = self.loops.len();
        let mut i: usize = 0;
        while i < n
            invariant
                0 <= i <= n,
                n == self.loops@.len(),
                self.inv(),
                match (min_alpha, fold_alpha(self.loops@.take(i as int), own_alpha_candidate(*self))) {
                    (Option::Some((mt, mz)), Option::Some((st, sz))) => mt.units as int == st && mz
                        == sz && mt.bounded(),
                    (Option::None, Option::None) => true,
                    _ => false,
                },
            decreases n - i,
        {
            let l = &self.loops[i];
            proof {
                assert(self.loops@.take(i + 1).drop_last() =~= self.loops@.take(i as int));
                assert(self.loops@.take(i + 1).last() == self.loops@[i as int]);
            }
            if l.group.alpha.commands.len() > 0 {
                let c = l.group.alpha.commands[0];
                let t = c.start_time.add_sat(l.loop_start_time);
                let z = c.start_value.is_zero();
                match min_alpha {
                    None => {
                        min_alpha = Some((t, z));
                    },
                    Some((mt, _)) => {
                        if t.lt(mt) {
                            min_alpha = Some((t, z));
                        }
                    },
                }
            }
            i = i + 1;
        }
        proof {
            assert(self.loops@.take(n as int) =~= self.loops@);
        }
        match min_alpha {
            Some((t, true)) => t,
            _ => self.earliest_transform_time(),
        }
    }

    /// The least absolute start over the own group and the loops.
    pub fn earliest_transform_time(&self) -> (r: Num)
        requires
            self.inv(),
        ensures
            r.units as int == earliest_transform_units(*self),
            r.bounded(),
    {
        let mut acc: Num = self.timeline_group.start_time();
        let n = self.loops.len();
        let mut i: usize = 0;
        while i < n
            invariant
                0 <= i <= n,
                n == self.loops@.len(),
                self.inv(),
                acc.units as int == fold_min_loops(
                    self.loops@.take(i as int),
                    group_start_units(self.timeline_group),
                ),
                acc.bounded(),
            decreases n - i,
        {
            proof {
                assert(self.loops@.take(i + 1).drop_last() =~= self.loops@.take(i as int));
                assert(self.loops@.take(i + 1).last() == self.loops@[i as int]);
            }
            acc = acc.min(self.loops[i].start_time());
            i = i + 1;
        }
        proof {
            assert(self.loops@.take(n as int) =~= self.loops@);
        }
        acc
    }

    /// The greatest absolute end over the own group and the loops.
    pub fn end_time(&self) -> (r: Num)
        requires
            self.inv(),
        ensures
            r.units as int == sprite_end_units(*self),
            r.bounded(),
    {
        let mut acc: Num = self.timeline_group.end_time();
        let n = self.loops.len();
        let mut i: usize = 0;
        while i < n
            invariant
                0 <= i <= n,
                n == self.loops@.len(),
                self.inv(),
                acc.units as int == fold_max_loop_ends(
                    self.loops@.take(i as int),
                    group_end_units(self.timeline_group),
                ),
                acc.bounded(),
            decreases n - i,
        {
            proof {
                assert(self.loops@.take(i + 1).drop_last() =~= self.loops@.take(i as int));
                assert(self.loops@.take(i + 1).last() == self.loops@[i as int]);
            }
            acc = acc.max(self.loops[i].end_time());
            i = i + 1;
        }
        proof {
            assert(self.loops@.take(n as int) =~= self.loops@);
        }
        acc
    }

    /// The greatest end for display purposes: every loop counts all of its
    /// iterations.
    pub fn end_time_for_display(&self) -> (r: Num)
        requires
            self.inv(),
        ensures
            r.units as int == sprite_display_end_units(*self),
            r.bounded(),
    {
        let mut acc: Num = self.timeline_group.end_time();
        let n = self.loops.len();
        let mut i: usize = 0;
        while i < n
            invariant
                0 <= i <= n,
                n == self.loops@.len(),
                self.inv(),
                acc.units as int == fold_max_display_ends(
                    self.loops@.take(i as int),
                    group_end_units(self.timeline_group),
                ),
                acc.bounded(),
            decreases n - i,
        {
            proof {
                assert(self.loops@.take(i + 1).drop_last() =~= self.loops@.take(i as int));
                assert(self.loops@.take(i + 1).last() == self.loops@[i as int]);
            }
            let l = &self.loops[i];
            let span = l.group.duration().mul_u32_sat(l.total_iterations);
            acc = acc.max(l.start_time().add_sat(span));
            i = i + 1;
        }
        proof {
            assert(self.loops@.take(n as int) =~= self.loops@);
        }
        acc
    }

    /// Append a fresh loop; commands then land in it through the decoder's
    /// current target.
    pub fn add_loop(&mut self, start_time: Num, repeat_count: u32)
        requires
            old(self).inv(),
            start_time.bounded(),
            repeat_count < u32::MAX,
        ensures
            final(self).inv(),
            final(self).loops@.len() == old(self).loops@.len() + 1,
            final(self).loops@ == old(self).loops@.push(final(self).loops@.last()),
            final(self).loops@.last().group.is_empty(),
            final(self).loops@.last().loop_start_time == start_time,
            final(self).loops@.last().total_iterations == repeat_count + 1,
            final(self).origin == old(self).origin,
            final(self).initial_pos == old(self).initial_pos,
            final(self).timeline_group == old(self).timeline_group,
            final(self).triggers == old(self).triggers,
    {
        let l = CommandLoop::new(start_time, repeat_count);
        self.loops.push(l);
    }

    /// Append a fresh trigger.
    pub fn add_trigger(&mut self, name: Vec<u8>, start_time: Num, end_time: Num, group_num: i32)
        requires
            old(self).inv(),
            start_time.bounded(),
            end_time.bounded(),
        ensures
            final(self).inv(),
            final(self).triggers@.len() == old(self).triggers@.len() + 1,
            final(self).triggers@ == old(self).triggers@.push(final(self).triggers@.last()),
            final(self).triggers@.last().group.is_empty(),
            final(self).triggers@.last().name == name,
            final(self).triggers@.last().start_time == start_time,
            final(self).triggers@.last().end_time == end_time,
            final(self).triggers@.last().group_num == group_num,
            final(self).origin == old(self).origin,
            final(self).initial_pos == old(self).initial_pos,
            final(self).timeline_group == old(self).timeline_group,
            final(self).loops == old(self).loops,
    {
        let t = CommandTrigger::new(name, start_time, end_time, group_num);
        self.triggers.push(t);
    }
}

/// How an animation behaves after its last frame.
#[derive(Copy, Clone, Debug, PartialEq, Eq, Structural)]
pub enum AnimationLoopType {
    LoopForever,
    LoopOnce,
}

/// The loop type named by a field: code 0 or 1, the name `LoopOnce`, or the
/// forever default.
pub open spec fn loop_type_of_field(s: Seq<u8>) -> AnimationLoopType {
    if u8_plain_ok(s) {
        if u8_plain_val(s) == 1 {
            AnimationLoopType::LoopOnce
        } else {
            AnimationLoopType::LoopForever
        }
    } else if s == "LoopOnce".spec_bytes() {
        AnimationLoopType::LoopOnce
    } else {
        AnimationLoopType::LoopForever
    }
}

impl AnimationLoopType {
    /// Read a loop type field.
    pub fn parse(s: &[u8]) -> (r: Self)
        ensures
            r == loop_type_of_field(s@),
    {
        match crate::num::parse_u8_plain(s) {
            Some(1) => AnimationLoopType::LoopOnce,
            Some(_) => AnimationLoopType::LoopForever,
            None => {
                if bytes_eq(s, "LoopOnce".as_bytes()) {
                    AnimationLoopType::LoopOnce
                } else {
                    AnimationLoopType::LoopForever
                }
            },
        }
    }

    /// The wire-format code written for this loop type.
    pub fn code(self) -> (r: u8)
        ensures
            self == AnimationLoopType::LoopForever ==> r == 0,
            self == AnimationLoopType::LoopOnce ==> r == 1,
    {
        match self {
            AnimationLoopType::LoopForever => 0,
            AnimationLoopType::LoopOnce => 1,
        }
    }
}

/// A frame-by-frame animation: a sprite plus frame data.
#[derive(Clone, Debug)]
pub struct StoryboardAnimation {
    pub sprite: StoryboardSprite,
    pub frame_count: i32,
    pub frame_delay: Num,
    pub loop_kind: AnimationLoopType,
}

impl StoryboardAnimation {
    pub open spec fn inv(self) -> bool {
        self.sprite.inv()
    }

    /// A fresh animation with an empty timeline group.
    pub fn new(
        origin: Anchor,
        initial_pos: Pos,
        frame_count: i32,
        frame_delay: Num,
        loop_kind: AnimationLoopType,
    ) -> (r: Self)
        requires
            initial_pos.x.bounded(),
            initial_pos.y.bounded(),
        ensures
            r.inv(),
            r.sprite.origin == origin,
            r.sprite.initial_pos == initial_pos,
            r.sprite.timeline_group.is_empty(),
            r.sprite.loops@.len() == 0,
            r.sprite.triggers@.len() == 0,
            r.frame_count == frame_count,
            r.frame_delay == frame_delay,
            r.loop_kind == loop_kind,
    {
        StoryboardAnimation {
            sprite: StoryboardSprite::new(origin, initial_pos),
            frame_count,
            frame_delay,
            loop_kind,
        }
    }

    pub fn has_commands(&self) -> (r: bool)
        ensures
            r == sprite_has_commands(self.sprite),
    {
        self.sprite.has_commands()
    }

    pub fn is_drawable(&self) -> (r: bool)
        ensures
            r == sprite_has_commands(self.sprite),
    {
        self.sprite.is_drawable()
    }

    pub fn start_time(&self) -> (r: Num)
        requires
            self.inv(),
        ensures
            r.units as int == sprite_start_units(self.sprite),
            r.bounded(),
    {
        self.sprite.start_time()
    }

    pub fn earliest_transform_time(&self) -> (r: Num)
        requires
            self.inv(),
        ensures
            r.units as int == earliest_transform_units(self.sprite),
            r.bounded(),
    {
        self.sprite.earliest_transform_time()
    }

    pub fn end_time(&self) -> (r: Num)
        requires
            self.inv(),
        ensures
            r.units as int == sprite_end_units(self.sprite),
            r.bounded(),
    {
        self.sprite.end_time()
    }

    pub fn end_time_for_display(&self) -> (r: Num)
        requires
            self.inv(),
        ensures
            r.units as int == sprite_display_end_units(self.sprite),
            r.bounded(),
    {
        self.sprite.end_time_for_display()
    }
}

/// A timed audio sample.
#[derive(Clone, Copy, Debug, PartialEq, Eq, Structural)]
pub struct StoryboardSample {
    pub start_time: Num,
    pub volume: i32,
}

impl StoryboardSample {
    pub fn new(start_time: Num, volume: i32) -> (r: Self)
        ensures
            r.start_time == start_time,
            r.volume == volume,
    {
        StoryboardSample { start_time, volume }
    }
}

/// A timed background video.
#[derive(Clone, Copy, Debug, PartialEq, Eq, Structural)]
pub struct StoryboardVideo {
    pub start_time: Num,
}

impl StoryboardVideo {
    pub fn new(start_time: Num) -> (r: Self)
        ensures
            r.start_time == start_time,
    {
        StoryboardVideo { start_time }
    }
}

/// The kind-specific data of an element.
#[derive(Clone, Debug)]
pub enum StoryboardElementKind {
    Animation(StoryboardAnimation),
    Sample(StoryboardSample),
    Sprite(StoryboardSprite),
    Video(StoryboardVideo),
}

/// An element of a storyboard layer: an asset path and its kind.
#[derive(Clone, Debug)]
pub struct StoryboardElement {
    pub path: Vec<u8>,
    pub kind: StoryboardElementKind,
}

impl StoryboardElementKind {
    pub open spec fn inv(self) -> bool {
        match self {
            StoryboardElementKind::Animation(a) => a.inv() && a.frame_delay.bounded(),
            StoryboardElementKind::Sprite(s) => s.inv(),
            StoryboardElementKind::Sample(s) => s.start_time.bounded(),
            StoryboardElementKind::Video(v) => v.start_time.bounded(),
        }
    }

    /// The start of an element for timing bounds.
    pub open spec fn start_units(self) -> int {
        match self {
            StoryboardElementKind::Animation(a) => sprite_start_units(a.sprite),
            StoryboardElementKind::Sample(s) => s.start_time.units as int,
            StoryboardElementKind::Sprite(s) => sprite_start_units(s),
            StoryboardElementKind::Video(v) => v.start_time.units as int,
        }
    }

    /// The end of an element for timing bounds.
    pub open spec fn end_units(self) -> int {
        match self {
            StoryboardElementKind::Animation(a) => sprite_end_units(a.sprite),
            StoryboardElementKind::Sample(s) => s.start_time.units as int,
            StoryboardElementKind::Sprite(s) => sprite_end_units(s),
            StoryboardElementKind::Video(v) => v.start_time.units as int,
        }
    }

    /// Whether the element is drawn: samples and videos always, sprites and
    /// animations only when they hold commands.
    pub open spec fn drawable(self) -> bool {
        match self {
            StoryboardElementKind::Animation(a) => sprite_has_commands(a.sprite),
            StoryboardElementKind::Sprite(s) => sprite_has_commands(s),
            StoryboardElementKind::Sample(_) => true,
            StoryboardElementKind::Video(_) => true,
        }
    }

    pub fn is_drawable(&self) -> (r: bool)
        ensures
            r == self.drawable(),
    {
        match self {
            StoryboardElementKind::Animation(a) => a.is_drawable(),
            StoryboardElementKind::Sprite(s) => s.is_drawable(),
            StoryboardElementKind::Sample(_) => true,
            StoryboardElementKind::Video(_) => true,
        }
    }

    pub fn start_time(&self) -> (r: Num)
        requires
            self.inv(),
        ensures
            r.units as int == self.start_units(),
    {
        match self {
            StoryboardElementKind::Animation(a) => a.start_time(),
            StoryboardElementKind::Sample(s) => s.start_time,
            StoryboardElementKind::Sprite(s) => s.start_time(),
            StoryboardElementKind::Video(v) => v.start_time,
        }
    }

    pub fn end_time(&self) -> (r: Num)
        requires
            self.inv(),
        ensures
            r.units as int == self.end_units(),
    {
        match self {
            StoryboardElementKind::Animation(a) => a.end_time(),
            StoryboardElementKind::Sample(s) => s.start_time,
            StoryboardElementKind::Sprite(s) => s.end_time(),
            StoryboardElementKind::Video(v) => v.start_time,
        }
    }
}

impl StoryboardElement {
    pub open spec fn inv(self) -> bool {
        self.kind.inv()
    }

    pub fn new(path: Vec<u8>, kind: StoryboardElementKind) -> (r: Self)
        ensures
            r.path == path,
            r.kind == kind,
    {
        StoryboardElement { path, kind }
    }

    pub fn is_drawable(&self) -> (r: bool)
        ensures
            r == self.kind.drawable(),
    {
        self.kind.is_drawable()
    }

    pub fn start_time(&self) -> (r: Num)
        requires
            self.inv(),
        ensures
            r.units as int == self.kind.start_units(),
    {
        self.kind.start_time()
    }

    pub fn end_time(&self) -> (r: Num)
        requires
            self.inv(),
        ensures
            r.units as int == self.kind.end_units(),
    {
        self.kind.end_time()
    }
}

} // verus!
