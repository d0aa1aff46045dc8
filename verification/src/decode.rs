//! The decode state machine for the events and variables sections.
//!
//! While decoding, every timeline group lives in an arena and is addressed
//! by its index, so that the decoder's current command target — which may
//! point into the pending element or into an element already placed in a
//! layer — is a plain handle. When decoding finishes, each owner receives a
//! copy of its group from the arena.

use vstd::prelude::*;

use crate::element::{AnimationLoopType, StoryboardSample, StoryboardVideo};
use crate::num::{
    field_err, field_ok, field_units, int_field_err, int_field_ok, int_field_val, is_ws, parse_i32,
    parse_num, Num, NumberError, MAX_PARSE_VALUE, SCALE, UNITS_CAP,
};
use crate::storyboard::BreakPeriod;
use crate::text::{first_match, is_match_at, subrange_vec};
use crate::timeline::{CommandTimeline, TypedCommand};
use crate::timeline_group::CommandTimelineGroup;
use crate::visual::{blending_additive, blending_inherit, Anchor, BlendingParameters, Easing, Pos};
use vstd::string::StringSliceAdditionalSpecFns;

verus! {

/// The largest magnitude accepted for a coordinate field.
pub const MAX_COORDINATE_VALUE: i32 = 131072;

/// All the ways a line of the events section can be malformed.
#[derive(Clone, Copy, Debug, PartialEq, Eq, Structural)]
pub enum ParseStoryboardError {
    /// The leading token of a top-level line names no event type.
    EventType,
    /// A required comma-separated field is missing.
    InvalidLine,
    /// A numeric field does not parse or lies out of range.
    Number(NumberError),
    /// The leading token of a command line names no command.
    UnknownCommandType,
}

/// A sprite under construction: its timeline groups are arena handles.
#[derive(Clone, Debug)]
pub struct StoryboardSpriteInternal {
    pub origin: Anchor,
    pub initial_pos: Pos,
    pub timeline_group: usize,
    pub loops: Vec<CommandLoopInternal>,
    pub triggers: Vec<CommandTriggerInternal>,
}

/// A loop under construction.
#[derive(Clone, Copy, Debug)]
pub struct CommandLoopInternal {
    pub group: usize,
    pub loop_start_time: Num,
    pub total_iterations: u32,
}

/// A trigger under construction.
#[derive(Clone, Debug)]
pub struct CommandTriggerInternal {
    pub group: usize,
    pub name: Vec<u8>,
    pub start_time: Num,
    pub end_time: Num,
    pub group_num: i32,
}

/// An animation under construction.
#[derive(Clone, Debug)]
pub struct StoryboardAnimationInternal {
    pub sprite: StoryboardSpriteInternal,
    pub frame_count: i32,
    pub frame_delay: Num,
    pub loop_kind: AnimationLoopType,
}

/// The kind of an element under construction.
#[derive(Clone, Debug)]
pub enum ElementKindInternal {
    Animation(StoryboardAnimationInternal),
    Sample(StoryboardSample),
    Sprite(StoryboardSpriteInternal),
    Video(StoryboardVideo),
}

/// An element under construction.
#[derive(Clone, Debug)]
pub struct ElementInternal {
    pub path: Vec<u8>,
    pub kind: ElementKindInternal,
}

/// A layer under construction.
#[derive(Clone, Debug)]
pub struct LayerInternal {
    pub name: Vec<u8>,
    pub depth: i32,
    pub masking: bool,
    pub visible_when_passing: bool,
    pub visible_when_failing: bool,
    pub elements: Vec<ElementInternal>,
}

/// The layers under construction.
#[derive(Clone, Debug)]
pub struct StoryboardInternal {
    pub layers: Vec<LayerInternal>,
    pub min_layer_depth: i32,
}

impl StoryboardSpriteInternal {
    /// Every handle points into the first `n` arena slots, and every stored
    /// time is in range.
    pub open spec fn handles_ok(self, n: int) -> bool {
        &&& self.initial_pos.x.bounded()
        &&& self.initial_pos.y.bounded()
        &&& self.timeline_group < n
        &&& forall|i: int|
            0 <= i < self.loops@.len() ==> (#[trigger] self.loops@[i]).group < n && self.loops@[
                i
            ].loop_start_time.bounded()
        &&& forall|i: int|
            0 <= i < self.triggers@.len() ==> (#[trigger] self.triggers@[i]).group < n
                && self.triggers@[i].start_time.bounded() && self.triggers@[i].end_time.bounded()
    }
}

impl ElementKindInternal {
    pub open spec fn handles_ok(self, n: int) -> bool {
        match self {
            ElementKindInternal::Animation(a) => a.sprite.handles_ok(n)
                && a.frame_delay.bounded(),
            ElementKindInternal::Sprite(s) => s.handles_ok(n),
            ElementKindInternal::Sample(s) => s.start_time.bounded(),
            ElementKindInternal::Video(v) => v.start_time.bounded(),
        }
    }
}

/// Every element of the list keeps its handles in the first `n` slots.
pub open spec fn elems_handles_ok(es: Seq<ElementInternal>, n: int) -> bool {
    forall|j: int| 0 <= j < es.len() ==> (#[trigger] es[j]).kind.handles_ok(n)
}

impl StoryboardInternal {
    pub open spec fn handles_ok(self, n: int) -> bool {
        forall|i: int|
            0 <= i < self.layers@.len() ==> elems_handles_ok(
                (#[trigger] self.layers@[i]).elements@,
                n,
            )
    }

    /// The index of the layer with the given name, creating a fresh one
    /// behind every existing layer when no layer has it.
    pub fn get_layer(&mut self, name: &[u8]) -> (r: usize)
        ensures
            r < final(self).layers@.len(),
            final(self).layers@[r as int].name@ == name@,
            forall|j: int| 0 <= j < r ==> (#[trigger] final(self).layers@[j]).name@ != name@,
            (exists|j: int|
                0 <= j < old(self).layers@.len() && (#[trigger] old(self).layers@[j]).name@
                    == name@) ==> *final(self) == *old(self),
            !(exists|j: int|
                0 <= j < old(self).layers@.len() && (#[trigger] old(self).layers@[j]).name@
                    == name@) ==> {
                &&& r as int == old(self).layers@.len()
                &&& final(self).layers@ == old(self).layers@.push(final(self).layers@.last())
                &&& final(self).layers@.last().name@ == name@
                &&& final(self).layers@.last().depth == final(self).min_layer_depth
                &&& final(self).layers@.last().masking
                &&& final(self).layers@.last().visible_when_passing
                &&& final(self).layers@.last().visible_when_failing
                &&& final(self).layers@.last().elements@.len() == 0
                &&& final(self).min_layer_depth == if old(self).min_layer_depth > i32::MIN {
                    old(self).min_layer_depth - 1
                } else {
                    i32::MIN as int
                }
            },
    {
        let n = self.layers.len();
        let mut i: usize = 0;
        while i < n
            invariant
                0 <= i <= n,
                n == self.layers@.len(),
                *self == *old(self),
                forall|j: int| 0 <= j < i ==> (#[trigger] self.layers@[j]).name@ != name@,
            decreases n - i,
        {
            if crate::text::bytes_eq(self.layers[i].name.as_slice(), name) {
                return i;
            }
            i = i + 1;
        }
        if self.min_layer_depth > i32::MIN {
            self.min_layer_depth = self.min_layer_depth - 1;
        }
        let layer = LayerInternal {
            name: crate::layer::slice_to_vec(name),
            depth: self.min_layer_depth,
            masking: true,
            visible_when_passing: true,
            visible_when_failing: true,
            elements: Vec::new(),
        };
        self.layers.push(layer);
        proof {
            assert(forall|j: int|
                0 <= j < old(self).layers@.len() ==> self.layers@[j] == old(self).layers@[j]);
        }
        n
    }
}

/// The line before its first comment marker, with trailing whitespace
/// removed.
pub open spec fn trim_comment_spec(s: Seq<u8>) -> Seq<u8> {
    let fm = first_match(s, "//".spec_bytes());
    let cut = if fm >= 0 {
        s.take(fm)
    } else {
        s
    };
    trim_end_spec(cut)
}

/// The sequence without its trailing whitespace.
pub open spec fn trim_end_spec(s: Seq<u8>) -> Seq<u8>
    decreases s.len(),
{
    if s.len() > 0 && is_ws(s.last()) {
        trim_end_spec(s.drop_last())
    } else {
        s
    }
}

/// Remove a line's comment and its trailing whitespace.
pub fn trim_comment(s: &[u8]) -> (r: Vec<u8>)
    ensures
        r@ == trim_comment_spec(s@),
{
    let marker = "//".as_bytes();
    let cut_at: usize = match crate::text::find_first(s, marker) {
        Some(i) => i,
        None => s.len(),
    };
    proof {
        if first_match(s@, "//".spec_bytes()) < 0 {
            assert(s@.take(s@.len() as int) =~= s@);
        }
    }
    let mut hi: usize = cut_at;
    while hi > 0 && ws_at(s, hi - 1)
        invariant
            0 <= hi <= cut_at,
            cut_at <= s@.len(),
            trim_end_spec(s@.take(cut_at as int)) == trim_end_spec(s@.take(hi as int)),
        decreases hi,
    {
        proof {
            let cur = s@.take(hi as int);
            assert(cur.last() == s@[hi - 1]);
            assert(cur.drop_last() =~= s@.take(hi - 1));
        }
        hi = hi - 1;
    }
    proof {
        let cur = s@.take(hi as int);
        if hi > 0 {
            assert(cur.last() == s@[hi - 1]);
        }
        assert(trim_end_spec(cur) == cur);
    }
    subrange_vec(s, 0, hi)
}

fn ws_at(s: &[u8], i: usize) -> (r: bool)
    requires
        i < s@.len(),
    ensures
        r == is_ws(s@[i as int]),
{
    let b = s[i];
    b == 32 || b == 9 || b == 10 || b == 13 || b == 11 || b == 12
}

/// The views of the variable table.
pub open spec fn vars_view(vs: Seq<(Vec<u8>, Vec<u8>)>) -> Seq<(Seq<u8>, Seq<u8>)> {
    vs.map_values(|p: (Vec<u8>, Vec<u8>)| (p.0@, p.1@))
}

/// One substitution attempt of one variable: replace its first occurrence.
pub open spec fn subst_one(line: Seq<u8>, key: Seq<u8>, value: Seq<u8>) -> (Seq<u8>, bool) {
    let fm = first_match(line, key);
    if fm >= 0 {
        (line.take(fm) + value + line.skip(fm + key.len()), true)
    } else {
        (line, false)
    }
}

/// One pass over the variable table from index `idx`, each variable seeing
/// the replacements of the ones before it.
pub open spec fn subst_pass(line: Seq<u8>, vars: Seq<(Seq<u8>, Seq<u8>)>, idx: int) -> (
    Seq<u8>,
    bool,
)
    decreases vars.len() - idx,
{
    if idx < 0 || idx >= vars.len() {
        (line, false)
    } else {
        let (l1, c1) = subst_one(line, vars[idx].0, vars[idx].1);
        let (l2, c2) = subst_pass(l1, vars, idx + 1);
        (l2, c1 || c2)
    }
}

/// Repeated passes until none changes the line, the line holds no marker,
/// or the pass allowance runs out.
pub open spec fn subst_full(line: Seq<u8>, vars: Seq<(Seq<u8>, Seq<u8>)>, fuel: nat) -> Seq<u8>
    decreases fuel,
{
    if fuel == 0 || first_match(line, "$".spec_bytes()) < 0 {
        line
    } else {
        let (l1, changed) = subst_pass(line, vars, 0);
        if changed {
            subst_full(l1, vars, (fuel - 1) as nat)
        } else {
            l1
        }
    }
}

/// The number of substitution passes allowed on one line. A variable table
/// whose values expand into further matches could otherwise rewrite a line
/// without end.
pub const SUBST_PASS_LIMIT: u64 = 4096;

/// Substitution has nothing left to do: the line holds no marker, or no
/// variable key occurs in it any more.
pub open spec fn subst_done(line: Seq<u8>, vars: Seq<(Seq<u8>, Seq<u8>)>) -> bool {
    first_match(line, "$".spec_bytes()) < 0 || subst_pass(line, vars, 0).1 == false
}

/// Whether the pass allowance runs out before substitution settles: only a
/// chain of `fuel` changing passes exhausts it.
pub open spec fn subst_hits_cap(line: Seq<u8>, vars: Seq<(Seq<u8>, Seq<u8>)>, fuel: nat) -> bool
    decreases fuel,
{
    if fuel == 0 {
        true
    } else if first_match(line, "$".spec_bytes()) < 0 {
        false
    } else {
        let (l1, changed) = subst_pass(line, vars, 0);
        if changed {
            subst_hits_cap(l1, vars, (fuel - 1) as nat)
        } else {
            false
        }
    }
}

/// A pass that reports no change leaves the line as it was.
proof fn lemma_subst_pass_unchanged(line: Seq<u8>, vars: Seq<(Seq<u8>, Seq<u8>)>, idx: int)
    ensures
        subst_pass(line, vars, idx).1 == false ==> subst_pass(line, vars, idx).0 == line,
    decreases vars.len() - idx,
{
    if 0 <= idx < vars.len() {
        let (l1, c1) = subst_one(line, vars[idx].0, vars[idx].1);
        if !c1 {
            lemma_subst_pass_unchanged(line, vars, idx + 1);
        }
    }
}

/// Unless the pass allowance runs out, substitution returns a settled line.
pub proof fn lemma_subst_full_done(line: Seq<u8>, vars: Seq<(Seq<u8>, Seq<u8>)>, fuel: nat)
    ensures
        !subst_hits_cap(line, vars, fuel) ==> subst_done(subst_full(line, vars, fuel), vars),
    decreases fuel,
{
    if fuel == 0 {
    } else if first_match(line, "$".spec_bytes()) < 0 {
    } else {
        let (l1, changed) = subst_pass(line, vars, 0);
        if changed {
            lemma_subst_full_done(l1, vars, (fuel - 1) as nat);
        } else {
            lemma_subst_pass_unchanged(line, vars, 0);
        }
    }
}

/// The sprite gained one loop; everything else is untouched.
pub open spec fn sprite_loop_pushed(
    so: StoryboardSpriteInternal,
    sn: StoryboardSpriteInternal,
    l: CommandLoopInternal,
) -> bool {
    &&& sn.origin == so.origin
    &&& sn.initial_pos == so.initial_pos
    &&& sn.timeline_group == so.timeline_group
    &&& sn.loops@ == so.loops@.push(l)
    &&& sn.triggers == so.triggers
}

/// The sprite gained one trigger; everything else is untouched.
pub open spec fn sprite_trigger_pushed(
    so: StoryboardSpriteInternal,
    sn: StoryboardSpriteInternal,
    group: int,
    name: Seq<u8>,
    st: int,
    et: int,
    gn: int,
) -> bool {
    &&& sn.origin == so.origin
    &&& sn.initial_pos == so.initial_pos
    &&& sn.timeline_group == so.timeline_group
    &&& sn.loops == so.loops
    &&& sn.triggers@.len() == so.triggers@.len() + 1
    &&& sn.triggers@.drop_last() == so.triggers@
    &&& sn.triggers@.last().group as int == group
    &&& sn.triggers@.last().name@ == name
    &&& sn.triggers@.last().start_time.units as int == st
    &&& sn.triggers@.last().end_time.units as int == et
    &&& sn.triggers@.last().group_num as int == gn
}

/// The pending element gained one loop.
pub open spec fn pending_loop_pushed(
    o: PendingSprite,
    n: PendingSprite,
    l: CommandLoopInternal,
) -> bool {
    &&& o.0 is Some && n.0 is Some
    &&& n.0.unwrap().path == o.0.unwrap().path
    &&& n.0.unwrap().layer == o.0.unwrap().layer
    &&& match (o.0.unwrap().kind, n.0.unwrap().kind) {
        (PendingSpriteKind::Sprite(so), PendingSpriteKind::Sprite(sn)) => sprite_loop_pushed(
            so,
            sn,
            l,
        ),
        (
            PendingSpriteKind::Animation(ao),
            PendingSpriteKind::Animation(an),
        ) => sprite_loop_pushed(ao.sprite, an.sprite, l) && an.frame_count == ao.frame_count
            && an.frame_delay == ao.frame_delay && an.loop_kind == ao.loop_kind,
        _ => false,
    }
}

/// The pending element gained one trigger.
pub open spec fn pending_trigger_pushed(
    o: PendingSprite,
    n: PendingSprite,
    group: int,
    name: Seq<u8>,
    st: int,
    et: int,
    gn: int,
) -> bool {
    &&& o.0 is Some && n.0 is Some
    &&& n.0.unwrap().path == o.0.unwrap().path
    &&& n.0.unwrap().layer == o.0.unwrap().layer
    &&& match (o.0.unwrap().kind, n.0.unwrap().kind) {
        (PendingSpriteKind::Sprite(so), PendingSpriteKind::Sprite(sn)) => sprite_trigger_pushed(
            so,
            sn,
            group,
            name,
            st,
            et,
            gn,
        ),
        (
            PendingSpriteKind::Animation(ao),
            PendingSpriteKind::Animation(an),
        ) => sprite_trigger_pushed(ao.sprite, an.sprite, group, name, st, et, gn)
            && an.frame_count == ao.frame_count && an.frame_delay == ao.frame_delay
            && an.loop_kind == ao.loop_kind,
        _ => false,
    }
}

/// The sequence without its leading and trailing quote characters.
pub open spec fn strip_quotes(s: Seq<u8>) -> Seq<u8>
    decreases s.len(),
{
    if s.len() > 0 && s[0] == 34 {
        strip_quotes(s.drop_first())
    } else if s.len() > 0 && s.last() == 34 {
        strip_quotes(s.drop_last())
    } else {
        s
    }
}

/// A subrange whose outside is quotes and whose ends are not is the strip.
pub proof fn lemma_strip_quotes_characterize(s: Seq<u8>, lo: int, hi: int)
    requires
        0 <= lo <= hi <= s.len(),
        forall|i: int| 0 <= i < lo ==> #[trigger] s[i] == 34,
        forall|i: int| hi <= i < s.len() ==> #[trigger] s[i] == 34,
        lo == hi || (s[lo] != 34 && s[hi - 1] != 34),
    ensures
        strip_quotes(s) == s.subrange(lo, hi),
    decreases s.len(),
{
    if s.len() > 0 && s[0] == 34 {
        if lo == 0 {
            lemma_strip_quotes_characterize(s.drop_first(), 0, 0);
            assert(s.drop_first().subrange(0, 0) =~= s.subrange(0, 0));
        } else {
            lemma_strip_quotes_characterize(s.drop_first(), lo - 1, hi - 1);
            assert(s.drop_first().subrange(lo - 1, hi - 1) =~= s.subrange(lo, hi));
        }
    } else if s.len() > 0 && s.last() == 34 {
        lemma_strip_quotes_characterize(s.drop_last(), lo, hi);
        assert(s.drop_last().subrange(lo, hi) =~= s.subrange(lo, hi));
    } else {
        assert(s.subrange(lo, hi) =~= s);
    }
}

/// Path separators folded to the standard one: a pair of backslashes or a
/// lone backslash each become one forward slash.
pub open spec fn fold_separators(s: Seq<u8>) -> Seq<u8>
    decreases s.len(),
{
    if s.len() == 0 {
        seq![]
    } else if s[0] == 92 && s.len() >= 2 && s[1] == 92 {
        seq![47u8] + fold_separators(s.skip(2))
    } else if s[0] == 92 {
        seq![47u8] + fold_separators(s.skip(1))
    } else {
        seq![s[0]] + fold_separators(s.skip(1))
    }
}

/// A path field as stored: quotes stripped, separators standardized.
pub open spec fn clean_filename_spec(s: Seq<u8>) -> Seq<u8> {
    fold_separators(strip_quotes(s))
}

/// Normalize a path field.
pub fn clean_filename(s: &[u8]) -> (r: Vec<u8>)
    ensures
        r@ == clean_filename_spec(s@),
{
    let len = s.len();
    let mut lo: usize = 0;
    while lo < len && s[lo] == 34
        invariant
            0 <= lo <= len,
            len == s@.len(),
            forall|i: int| 0 <= i < lo ==> #[trigger] s@[i] == 34,
        decreases len - lo,
    {
        lo = lo + 1;
    }
    let mut hi: usize = len;
    while hi > lo && s[hi - 1] == 34
        invariant
            lo <= hi <= len,
            len == s@.len(),
            forall|i: int| hi <= i < len ==> #[trigger] s@[i] == 34,
        decreases hi,
    {
        hi = hi - 1;
    }
    proof {
        lemma_strip_quotes_characterize(s@, lo as int, hi as int);
    }
    let ghost q = s@.subrange(lo as int, hi as int);
    let mut out: Vec<u8> = Vec::new();
    let mut i: usize = lo;
    proof {
        assert(q.skip(0) =~= q);
        assert(out@ + fold_separators(q) =~= fold_separators(q));
    }
    while i < hi
        invariant
            lo <= i <= hi,
            hi <= s@.len(),
            q == s@.subrange(lo as int, hi as int),
            out@ + fold_separators(q.skip(i - lo)) == fold_separators(q),
        decreases hi - i,
    {
        let ghost rem = q.skip(i - lo);
        proof {
            assert(rem[0] == s@[i as int]);
            if i + 1 < hi {
                assert(rem[1] == s@[i + 1]);
            }
        }
        if s[i] == 92 {
            out.push(47);
            if i + 1 < hi && s[i + 1] == 92 {
                proof {
                    assert(rem.skip(2) =~= q.skip(i + 2 - lo));
                    assert(out@ + fold_separators(q.skip(i + 2 - lo)) =~= fold_separators(q));
                }
                i = i + 2;
            } else {
                proof {
                    if i + 1 < hi {
                        assert(rem.len() >= 2 ==> rem[1] != 92);
                    }
                    assert(rem.skip(1) =~= q.skip(i + 1 - lo));
                    assert(out@ + fold_separators(q.skip(i + 1 - lo)) =~= fold_separators(q));
                }
                i = i + 1;
            }
        } else {
            out.push(s[i]);
            proof {
                assert(rem.skip(1) =~= q.skip(i + 1 - lo));
                assert(out@ + fold_separators(q.skip(i + 1 - lo)) =~= fold_separators(q));
            }
            i = i + 1;
        }
    }
    proof {
        assert(q.skip(hi - lo) =~= Seq::<u8>::empty());
        assert(out@ =~= out@ + fold_separators(q.skip(hi - lo)));
    }
    out
}

/// The nesting depth of a line: its leading spaces and underscores.
pub open spec fn depth_of(s: Seq<u8>) -> int
    decreases s.len(),
{
    if s.len() > 0 && (s[0] == 32 || s[0] == 95) {
        1 + depth_of(s.drop_first())
    } else {
        0
    }
}

/// Indentation characters only count at the front of the line.
pub proof fn lemma_depth_characterize(s: Seq<u8>, d: int)
    requires
        0 <= d <= s.len(),
        forall|i: int| 0 <= i < d ==> #[trigger] s[i] == 32 || s[i] == 95,
        d == s.len() || !(s[d] == 32 || s[d] == 95),
    ensures
        depth_of(s) == d,
    decreases s.len(),
{
    if s.len() > 0 && (s[0] == 32 || s[0] == 95) {
        assert(forall|i: int|
            0 <= i < d - 1 ==> #[trigger] s.drop_first()[i] == s[i + 1]);
        lemma_depth_characterize(s.drop_first(), d - 1);
    }
}

/// Count a line's nesting depth.
pub fn count_depth(s: &[u8]) -> (r: usize)
    ensures
        r as int == depth_of(s@),
        r <= s@.len(),
{
    let len = s.len();
    let mut d: usize = 0;
    while d < len && (s[d] == 32 || s[d] == 95)
        invariant
            0 <= d <= len,
            len == s@.len(),
            forall|i: int| 0 <= i < d ==> #[trigger] s@[i] == 32 || s@[i] == 95,
        decreases len - d,
    {
        d = d + 1;
    }
    proof {
        lemma_depth_characterize(s@, d as int);
    }
    d
}

/// What fills the decoder's pending element slot.
#[derive(Clone, Debug)]
pub enum PendingSpriteKind {
    Animation(StoryboardAnimationInternal),
    Sprite(StoryboardSpriteInternal),
}

/// The pending element with the layer it will be placed into.
#[derive(Clone, Debug)]
pub struct PendingSpriteInner {
    pub path: Vec<u8>,
    pub layer: Vec<u8>,
    pub kind: PendingSpriteKind,
}

/// The decoder's pending sprite or animation, not yet placed into a layer.
#[derive(Clone, Debug)]
pub struct PendingSprite(pub Option<PendingSpriteInner>);

impl PendingSpriteKind {
    /// The sprite part, shared by both kinds.
    pub open spec fn sprite(self) -> StoryboardSpriteInternal {
        match self {
            PendingSpriteKind::Animation(a) => a.sprite,
            PendingSpriteKind::Sprite(s) => s,
        }
    }
}

impl PendingSprite {
    pub open spec fn handles_ok(self, n: int) -> bool {
        match self.0 {
            Option::Some(inner) => kind_of_pending(inner.kind).handles_ok(n),
            Option::None => true,
        }
    }

    /// An empty slot.
    pub fn new() -> (r: Self)
        ensures
            r.0 is None,
    {
        PendingSprite(None)
    }

    /// Replace the slot with a fresh sprite.
    pub fn set_sprite(
        &mut self,
        path: Vec<u8>,
        layer: &crate::layer::StoryLayer,
        sprite: StoryboardSpriteInternal,
    )
        ensures
            final(self).0 is Some,
            final(self).0.unwrap().path == path,
            final(self).0.unwrap().layer@ == layer.name@,
            final(self).0.unwrap().kind == PendingSpriteKind::Sprite(sprite),
    {
        self.0 = Some(
            PendingSpriteInner {
                path,
                layer: crate::layer::slice_to_vec(layer.as_str().as_slice()),
                kind: PendingSpriteKind::Sprite(sprite),
            },
        );
    }

    /// Replace the slot with a fresh animation.
    pub fn set_animation(
        &mut self,
        path: Vec<u8>,
        layer: &crate::layer::StoryLayer,
        animation: StoryboardAnimationInternal,
    )
        ensures
            final(self).0 is Some,
            final(self).0.unwrap().path == path,
            final(self).0.unwrap().layer@ == layer.name@,
            final(self).0.unwrap().kind == PendingSpriteKind::Animation(animation),
    {
        self.0 = Some(
            PendingSpriteInner {
                path,
                layer: crate::layer::slice_to_vec(layer.as_str().as_slice()),
                kind: PendingSpriteKind::Animation(animation),
            },
        );
    }

    /// The sprite part of the pending element, if one is pending.
    pub fn inner(&self) -> (r: Option<&StoryboardSpriteInternal>)
        ensures
            match r {
                Some(s) => self.0 is Some && *s == self.0.unwrap().kind.sprite(),
                None => self.0 is None,
            },
    {
        match &self.0 {
            Some(inner) => match &inner.kind {
                PendingSpriteKind::Animation(a) => Some(&a.sprite),
                PendingSpriteKind::Sprite(s) => Some(s),
            },
            None => None,
        }
    }
}

/// The element kind a pending entry stands for.
pub open spec fn kind_of_pending(k: PendingSpriteKind) -> ElementKindInternal {
    match k {
        PendingSpriteKind::Animation(a) => ElementKindInternal::Animation(a),
        PendingSpriteKind::Sprite(s) => ElementKindInternal::Sprite(s),
    }
}

/// How placing one element changes the layers: it lands at the end of the
/// named layer, which is created behind all others when missing.
#[verifier::opaque]
pub open spec fn placed(
    old_sb: StoryboardInternal,
    new_sb: StoryboardInternal,
    name: Seq<u8>,
    path: Seq<u8>,
    kind: ElementKindInternal,
) -> bool {
    ||| (exists|r: int| #[trigger] placed_at(old_sb, new_sb, name, path, kind, r))
    ||| placed_fresh(old_sb, new_sb, name, path, kind)
}

/// The element landed at the end of the existing layer at index `r`, the
/// first with the given name.
pub open spec fn placed_at(
    old_sb: StoryboardInternal,
    new_sb: StoryboardInternal,
    name: Seq<u8>,
    path: Seq<u8>,
    kind: ElementKindInternal,
    r: int,
) -> bool {
    &&& 0 <= r < old_sb.layers@.len()
    &&& old_sb.layers@[r].name@ == name
    &&& forall|j: int| 0 <= j < r ==> (#[trigger] old_sb.layers@[j]).name@ != name
    &&& new_sb.layers@.len() == old_sb.layers@.len()
    &&& new_sb.min_layer_depth == old_sb.min_layer_depth
    &&& forall|j: int|
        0 <= j < old_sb.layers@.len() && j != r ==> #[trigger] new_sb.layers@[j]
            == old_sb.layers@[j]
    &&& new_sb.layers@[r].name == old_sb.layers@[r].name
    &&& new_sb.layers@[r].depth == old_sb.layers@[r].depth
    &&& new_sb.layers@[r].masking == old_sb.layers@[r].masking
    &&& new_sb.layers@[r].visible_when_passing == old_sb.layers@[r].visible_when_passing
    &&& new_sb.layers@[r].visible_when_failing == old_sb.layers@[r].visible_when_failing
    &&& new_sb.layers@[r].elements@.len() == old_sb.layers@[r].elements@.len() + 1
    &&& new_sb.layers@[r].elements@.drop_last() == old_sb.layers@[r].elements@
    &&& new_sb.layers@[r].elements@.last().path@ == path
    &&& new_sb.layers@[r].elements@.last().kind == kind
}

/// No layer had the name: a fresh layer with the one element lands behind
/// all others.
pub open spec fn placed_fresh(
    old_sb: StoryboardInternal,
    new_sb: StoryboardInternal,
    name: Seq<u8>,
    path: Seq<u8>,
    kind: ElementKindInternal,
) -> bool {
    &&& forall|j: int| 0 <= j < old_sb.layers@.len() ==> (#[trigger] old_sb.layers@[j]).name@ != name
    &&& new_sb.layers@.len() == old_sb.layers@.len() + 1
    &&& forall|j: int|
        0 <= j < old_sb.layers@.len() ==> #[trigger] new_sb.layers@[j] == old_sb.layers@[j]
    &&& new_sb.layers@.last().name@ == name
    &&& new_sb.layers@.last().depth == new_sb.min_layer_depth
    &&& new_sb.layers@.last().masking
    &&& new_sb.layers@.last().visible_when_passing
    &&& new_sb.layers@.last().visible_when_failing
    &&& new_sb.layers@.last().elements@.len() == 1
    &&& new_sb.layers@.last().elements@[0].path@ == path
    &&& new_sb.layers@.last().elements@[0].kind == kind
    &&& new_sb.min_layer_depth == if old_sb.min_layer_depth > i32::MIN {
        old_sb.min_layer_depth - 1
    } else {
        i32::MIN as int
    }
}

/// Place one element into the named layer.
pub fn place_element(sb: &mut StoryboardInternal, name: &[u8], elem: ElementInternal)
    ensures
        placed(*old(sb), *final(sb), name@, elem.path@, elem.kind),
{
    let ghost existed = exists|j: int|
        0 <= j < old(sb).layers@.len() && (#[trigger] old(sb).layers@[j]).name@ == name@;
    let idx = sb.get_layer(name);
    let ghost path0 = elem.path@;
    let ghost kind0 = elem.kind;
    let layer = &mut sb.layers[idx];
    layer.elements.push(elem);
    proof {
        reveal(placed);
        if existed {
            assert(sb.layers@[idx as int].elements@.drop_last() =~= old(
                sb,
            ).layers@[idx as int].elements@);
            assert(placed_at(*old(sb), *sb, name@, path0, kind0, idx as int));
        } else {
            assert(sb.layers@[idx as int].elements@.drop_last() =~= old(
                sb,
            ).layers@[idx as int].elements@ || old(sb).layers@.len() == idx as int);
            assert(placed_fresh(*old(sb), *sb, name@, path0, kind0));
        }
    }
}

/// What appending one command does to a timeline: the command lands at the
/// end with its end clamped up to its start, and the aggregates advance on
/// strict improvements only.
pub open spec fn timeline_added<T>(
    o: CommandTimeline<T>,
    n: CommandTimeline<T>,
    easing: Easing,
    st: Num,
    et: Num,
    sv: T,
    ev: T,
) -> bool {
    let ce: int = if et.units < st.units {
        st.units as int
    } else {
        et.units as int
    };
    &&& n.commands@ == o.commands@.push(
        TypedCommand {
            easing,
            start_time: st,
            end_time: Num { units: ce as i128 },
            start_value: sv,
            end_value: ev,
        },
    )
    &&& n.start_time.units == if st.units < o.start_time.units {
        st.units as int
    } else {
        o.start_time.units as int
    }
    &&& n.start_value == if st.units < o.start_time.units {
        sv
    } else {
        o.start_value
    }
    &&& n.end_time.units == if ce > o.end_time.units {
        ce
    } else {
        o.end_time.units as int
    }
    &&& n.end_value == if ce > o.end_time.units {
        ev
    } else {
        o.end_value
    }
}

/// The command landed in the alpha timeline; the other nine are untouched.
pub open spec fn added_alpha(
    o: CommandTimelineGroup,
    n: CommandTimelineGroup,
    e: Easing,
    st: Num,
    et: Num,
    sv: Num,
    ev: Num,
) -> bool {
    &&& timeline_added(o.alpha, n.alpha, e, st, et, sv, ev)
    &&& n.x == o.x && n.y == o.y && n.scale == o.scale && n.vector_scale == o.vector_scale
    &&& n.rotation == o.rotation && n.color == o.color
    &&& n.blending_parameters == o.blending_parameters && n.flip_h == o.flip_h && n.flip_v
        == o.flip_v
}

/// The command landed in the scale timeline.
pub open spec fn added_scale(
    o: CommandTimelineGroup,
    n: CommandTimelineGroup,
    e: Easing,
    st: Num,
    et: Num,
    sv: Num,
    ev: Num,
) -> bool {
    &&& timeline_added(o.scale, n.scale, e, st, et, sv, ev)
    &&& n.x == o.x && n.y == o.y && n.alpha == o.alpha && n.vector_scale == o.vector_scale
    &&& n.rotation == o.rotation && n.color == o.color
    &&& n.blending_parameters == o.blending_parameters && n.flip_h == o.flip_h && n.flip_v
        == o.flip_v
}

/// The command landed in the rotation timeline, in the source's angle unit.
pub open spec fn added_rotation(
    o: CommandTimelineGroup,
    n: CommandTimelineGroup,
    e: Easing,
    st: Num,
    et: Num,
    sv: Num,
    ev: Num,
) -> bool {
    &&& timeline_added(o.rotation, n.rotation, e, st, et, sv, ev)
    &&& n.x == o.x && n.y == o.y && n.alpha == o.alpha && n.vector_scale == o.vector_scale
    &&& n.scale == o.scale && n.color == o.color
    &&& n.blending_parameters == o.blending_parameters && n.flip_h == o.flip_h && n.flip_v
        == o.flip_v
}

/// The command landed in the horizontal-movement timeline.
pub open spec fn added_x(
    o: CommandTimelineGroup,
    n: CommandTimelineGroup,
    e: Easing,
    st: Num,
    et: Num,
    sv: Num,
    ev: Num,
) -> bool {
    &&& timeline_added(o.x, n.x, e, st, et, sv, ev)
    &&& n.scale == o.scale && n.y == o.y && n.alpha == o.alpha && n.vector_scale == o.vector_scale
    &&& n.rotation == o.rotation && n.color == o.color
    &&& n.blending_parameters == o.blending_parameters && n.flip_h == o.flip_h && n.flip_v
        == o.flip_v
}

/// The command landed in the vertical-movement timeline.
pub open spec fn added_y(
    o: CommandTimelineGroup,
    n: CommandTimelineGroup,
    e: Easing,
    st: Num,
    et: Num,
    sv: Num,
    ev: Num,
) -> bool {
    &&& timeline_added(o.y, n.y, e, st, et, sv, ev)
    &&& n.scale == o.scale && n.x == o.x && n.alpha == o.alpha && n.vector_scale == o.vector_scale
    &&& n.rotation == o.rotation && n.color == o.color
    &&& n.blending_parameters == o.blending_parameters && n.flip_h == o.flip_h && n.flip_v
        == o.flip_v
}

/// A move command lands one command in each of the two movement timelines.
pub open spec fn added_pos(
    o: CommandTimelineGroup,
    n: CommandTimelineGroup,
    e: Easing,
    st: Num,
    et: Num,
    sx: Num,
    sy: Num,
    ex: Num,
    ey: Num,
) -> bool {
    &&& timeline_added(o.x, n.x, e, st, et, sx, ex)
    &&& timeline_added(o.y, n.y, e, st, et, sy, ey)
    &&& n.scale == o.scale && n.alpha == o.alpha && n.vector_scale == o.vector_scale
    &&& n.rotation == o.rotation && n.color == o.color
    &&& n.blending_parameters == o.blending_parameters && n.flip_h == o.flip_h && n.flip_v
        == o.flip_v
}

/// The command landed in the vector-scale timeline.
pub open spec fn added_vector_scale(
    o: CommandTimelineGroup,
    n: CommandTimelineGroup,
    e: Easing,
    st: Num,
    et: Num,
    sv: Pos,
    ev: Pos,
) -> bool {
    &&& timeline_added(o.vector_scale, n.vector_scale, e, st, et, sv, ev)
    &&& n.x == o.x && n.y == o.y && n.alpha == o.alpha && n.scale == o.scale
    &&& n.rotation == o.rotation && n.color == o.color
    &&& n.blending_parameters == o.blending_parameters && n.flip_h == o.flip_h && n.flip_v
        == o.flip_v
}

/// The command landed in the colour timeline.
pub open spec fn added_color(
    o: CommandTimelineGroup,
    n: CommandTimelineGroup,
    e: Easing,
    st: Num,
    et: Num,
    sv: crate::visual::Color,
    ev: crate::visual::Color,
) -> bool {
    &&& timeline_added(o.color, n.color, e, st, et, sv, ev)
    &&& n.x == o.x && n.y == o.y && n.alpha == o.alpha && n.scale == o.scale
    &&& n.rotation == o.rotation && n.vector_scale == o.vector_scale
    &&& n.blending_parameters == o.blending_parameters && n.flip_h == o.flip_h && n.flip_v
        == o.flip_v
}

/// The command landed in the blending timeline: additive while it runs, and
/// it stays additive only when instantaneous.
pub open spec fn added_blending(
    o: CommandTimelineGroup,
    n: CommandTimelineGroup,
    e: Easing,
    st: Num,
    et: Num,
) -> bool {
    &&& timeline_added(
        o.blending_parameters,
        n.blending_parameters,
        e,
        st,
        et,
        blending_additive(),
        if st.units == et.units {
            blending_additive()
        } else {
            blending_inherit()
        },
    )
    &&& n.x == o.x && n.y == o.y && n.alpha == o.alpha && n.scale == o.scale
    &&& n.rotation == o.rotation && n.vector_scale == o.vector_scale && n.color == o.color
    &&& n.flip_h == o.flip_h && n.flip_v == o.flip_v
}

/// The command landed in the horizontal-flip timeline: flipped while it
/// runs, and it stays flipped only when instantaneous.
pub open spec fn added_flip_h(
    o: CommandTimelineGroup,
    n: CommandTimelineGroup,
    e: Easing,
    st: Num,
    et: Num,
) -> bool {
    &&& timeline_added(o.flip_h, n.flip_h, e, st, et, true, st.units == et.units)
    &&& n.x == o.x && n.y == o.y && n.alpha == o.alpha && n.scale == o.scale
    &&& n.rotation == o.rotation && n.vector_scale == o.vector_scale && n.color == o.color
    &&& n.blending_parameters == o.blending_parameters && n.flip_v == o.flip_v
}

/// The command landed in the vertical-flip timeline.
pub open spec fn added_flip_v(
    o: CommandTimelineGroup,
    n: CommandTimelineGroup,
    e: Easing,
    st: Num,
    et: Num,
) -> bool {
    &&& timeline_added(o.flip_v, n.flip_v, e, st, et, true, st.units == et.units)
    &&& n.x == o.x && n.y == o.y && n.alpha == o.alpha && n.scale == o.scale
    &&& n.rotation == o.rotation && n.vector_scale == o.vector_scale && n.color == o.color
    &&& n.blending_parameters == o.blending_parameters && n.flip_h == o.flip_h
}

/// The parsing state while decoding a storyboard document.
pub struct StoryboardState {
    pub format_version: i32,
    pub use_skin_sprites: bool,
    pub background_file: Vec<u8>,
    pub breaks: Vec<BreakPeriod>,
    pub storyboard: StoryboardInternal,
    pub sprite: PendingSprite,
    pub timeline_group: Option<usize>,
    pub variables: Vec<(Vec<u8>, Vec<u8>)>,
    pub arena: Vec<CommandTimelineGroup>,
}

impl StoryboardState {
    /// Every arena group keeps its aggregate invariant, every stored handle
    /// points into the arena, and every stored time is in range.
    pub open spec fn inv(self) -> bool {
        &&& forall|i: int| 0 <= i < self.arena@.len() ==> (#[trigger] self.arena@[i]).inv()
        &&& self.sprite.handles_ok(self.arena@.len() as int)
        &&& self.storyboard.handles_ok(self.arena@.len() as int)
        &&& match self.timeline_group {
            Option::Some(h) => h < self.arena@.len(),
            Option::None => true,
        }
        &&& forall|i: int|
            0 <= i < self.breaks@.len() ==> (#[trigger] self.breaks@[i]).start_time.bounded() && (
            self.breaks@[i]).end_time.bounded()
    }

    /// The non-arena, non-target fields are untouched.
    pub open spec fn same_surroundings(self, o: StoryboardState) -> bool {
        &&& self.format_version == o.format_version
        &&& self.use_skin_sprites == o.use_skin_sprites
        &&& self.background_file == o.background_file
        &&& self.breaks == o.breaks
        &&& self.storyboard == o.storyboard
        &&& self.sprite == o.sprite
        &&& self.timeline_group == o.timeline_group
        &&& self.variables == o.variables
    }

    /// Exactly the arena slot `h` changed, and only there.
    pub open spec fn arena_updated_at(self, o: StoryboardState, h: int) -> bool {
        &&& self.arena@.len() == o.arena@.len()
        &&& 0 <= h < o.arena@.len()
        &&& forall|i: int| 0 <= i < o.arena@.len() && i != h ==> self.arena@[i] == o.arena@[i]
    }

    /// Append a fresh, empty group to the arena.
    fn alloc_group(&mut self) -> (h: usize)
        requires
            old(self).inv(),
        ensures
            final(self).inv(),
            h as int == old(self).arena@.len(),
            final(self).arena@.len() == old(self).arena@.len() + 1,
            forall|i: int|
                0 <= i < old(self).arena@.len() ==> final(self).arena@[i] == old(self).arena@[i],
            final(self).arena@.last().inv(),
            final(self).arena@.last().is_empty(),
            final(self).same_surroundings(*old(self)),
    {
        let h = self.arena.len();
        self.arena.push(CommandTimelineGroup::new());
        h
    }
}

impl PendingSprite {
    /// Flush the pending element, if any, into its layer.
    pub fn add(&mut self, storyboard: &mut StoryboardInternal)
        ensures
            final(self).0 is None,
            match old(self).0 {
                Option::Some(inner) => placed(
                    *old(storyboard),
                    *final(storyboard),
                    inner.layer@,
                    inner.path@,
                    kind_of_pending(inner.kind),
                ),
                Option::None => *final(storyboard) == *old(storyboard),
            },
    {
        let mut taken: Option<PendingSpriteInner> = None;
        core::mem::swap(&mut taken, &mut self.0);
        match taken {
            Some(inner) => {
                let layer_name = inner.layer;
                let elem = ElementInternal {
                    path: inner.path,
                    kind: match inner.kind {
                        PendingSpriteKind::Animation(a) => ElementKindInternal::Animation(a),
                        PendingSpriteKind::Sprite(s) => ElementKindInternal::Sprite(s),
                    },
                };
                place_element(storyboard, layer_name.as_slice(), elem);
            },
            None => {},
        }
    }
}

impl PendingSprite {
    /// Append a loop to the pending element's sprite.
    pub fn push_loop(&mut self, l: CommandLoopInternal)
        requires
            old(self).0 is Some,
        ensures
            pending_loop_pushed(*old(self), *final(self), l),
    {
        let mut taken: Option<PendingSpriteInner> = None;
        core::mem::swap(&mut taken, &mut self.0);
        match taken {
            Some(inner) => {
                let PendingSpriteInner { path, layer, kind } = inner;
                let kind2 = match kind {
                    PendingSpriteKind::Animation(mut a) => {
                        a.sprite.loops.push(l);
                        PendingSpriteKind::Animation(a)
                    },
                    PendingSpriteKind::Sprite(mut sp) => {
                        sp.loops.push(l);
                        PendingSpriteKind::Sprite(sp)
                    },
                };
                self.0 = Some(PendingSpriteInner { path, layer, kind: kind2 });
            },
            None => {},
        }
    }

    /// Append a trigger to the pending element's sprite.
    pub fn push_trigger(&mut self, t: CommandTriggerInternal)
        requires
            old(self).0 is Some,
        ensures
            pending_trigger_pushed(
                *old(self),
                *final(self),
                t.group as int,
                t.name@,
                t.start_time.units as int,
                t.end_time.units as int,
                t.group_num as int,
            ),
    {
        let ghost t0 = t;
        let mut taken: Option<PendingSpriteInner> = None;
        core::mem::swap(&mut taken, &mut self.0);
        match taken {
            Some(inner) => {
                let PendingSpriteInner { path, layer, kind } = inner;
                let kind2 = match kind {
                    PendingSpriteKind::Animation(mut a) => {
                        a.sprite.triggers.push(t);
                        PendingSpriteKind::Animation(a)
                    },
                    PendingSpriteKind::Sprite(mut sp) => {
                        sp.triggers.push(t);
                        PendingSpriteKind::Sprite(sp)
                    },
                };
                self.0 = Some(PendingSpriteInner { path, layer, kind: kind2 });
                proof {
                    let so = old(self).0.unwrap().kind.sprite();
                    let sn = self.0.unwrap().kind.sprite();
                    assert(sn.triggers@ == so.triggers@.push(t0));
                    assert(sn.triggers@.drop_last() =~= so.triggers@);
                }
            },
            None => {},
        }
    }
}

impl StoryboardState {
    /// Read a fade command into the current target's alpha timeline.
    pub fn parse_alpha(
        &mut self,
        fields: &Vec<Vec<u8>>,
        easing: Easing,
        start_time: Num,
        end_time: Num,
    ) -> (r: Result<(), ParseStoryboardError>)
        requires
            old(self).inv(),
            start_time.strict(),
            end_time.strict(),
        ensures
            final(self).inv(),
            fields@.len() < 5 ==> r == Err::<(), ParseStoryboardError>(
                ParseStoryboardError::InvalidLine,
            ) && *final(self) == *old(self),
            fields@.len() >= 5 && old(self).timeline_group is None ==> r == Ok::<
                (),
                ParseStoryboardError,
            >(()) && *final(self) == *old(self),
            fields@.len() >= 5 && old(self).timeline_group is Some ==> ({
                let h = old(self).timeline_group.unwrap() as int;
                let has_ev = fields@.len() >= 6;
                if !field_ok(fields@[4]@, MAX_PARSE_VALUE as int) {
                    r == Err::<(), ParseStoryboardError>(
                        ParseStoryboardError::Number(field_err(fields@[4]@, MAX_PARSE_VALUE as int)),
                    ) && *final(self) == *old(self)
                } else if has_ev && !field_ok(fields@[5]@, MAX_PARSE_VALUE as int) {
                    r == Err::<(), ParseStoryboardError>(
                        ParseStoryboardError::Number(field_err(fields@[5]@, MAX_PARSE_VALUE as int)),
                    ) && *final(self) == *old(self)
                } else {
                    let sv = field_units(fields@[4]@);
                    let ev = if has_ev {
                        field_units(fields@[5]@)
                    } else {
                        sv
                    };
                    &&& r == Ok::<(), ParseStoryboardError>(())
                    &&& final(self).same_surroundings(*old(self))
                    &&& final(self).arena_updated_at(*old(self), h)
                    &&& added_alpha(
                        old(self).arena@[h],
                        final(self).arena@[h],
                        easing,
                        start_time,
                        end_time,
                        Num { units: sv as i128 },
                        Num { units: ev as i128 },
                    )
                }
            }),
    {
        if fields.len() < 5 {
            return Err(ParseStoryboardError::InvalidLine);
        }
        let h: usize = match self.timeline_group {
            Some(h) => h,
            None => {
                return Ok(());
            },
        };
        let sv: Num = match parse_num(fields[4].as_slice(), MAX_PARSE_VALUE) {
            Ok(v) => v,
            Err(e) => {
                return Err(ParseStoryboardError::Number(e));
            },
        };
        let ev: Num = if fields.len() >= 6 {
            match parse_num(fields[5].as_slice(), MAX_PARSE_VALUE) {
                Ok(v) => v,
                Err(e) => {
                    return Err(ParseStoryboardError::Number(e));
                },
            }
        } else {
            sv
        };
        self.arena[h].alpha.add(easing, start_time, end_time, sv, ev);
        Ok(())
    }

    /// Read a scale command into the current target's scale timeline.
    pub fn parse_scale(
        &mut self,
        fields: &Vec<Vec<u8>>,
        easing: Easing,
        start_time: Num,
        end_time: Num,
    ) -> (r: Result<(), ParseStoryboardError>)
        requires
            old(self).inv(),
            start_time.strict(),
            end_time.strict(),
        ensures
            final(self).inv(),
            fields@.len() < 5 ==> r == Err::<(), ParseStoryboardError>(
                ParseStoryboardError::InvalidLine,
            ) && *final(self) == *old(self),
            fields@.len() >= 5 && old(self).timeline_group is None ==> r == Ok::<
                (),
                ParseStoryboardError,
            >(()) && *final(self) == *old(self),
            fields@.len() >= 5 && old(self).timeline_group is Some ==> ({
                let h = old(self).timeline_group.unwrap() as int;
                let has_ev = fields@.len() >= 6;
                if !field_ok(fields@[4]@, MAX_PARSE_VALUE as int) {
                    r == Err::<(), ParseStoryboardError>(
                        ParseStoryboardError::Number(field_err(fields@[4]@, MAX_PARSE_VALUE as int)),
                    ) && *final(self) == *old(self)
                } else if has_ev && !field_ok(fields@[5]@, MAX_PARSE_VALUE as int) {
                    r == Err::<(), ParseStoryboardError>(
                        ParseStoryboardError::Number(field_err(fields@[5]@, MAX_PARSE_VALUE as int)),
                    ) && *final(self) == *old(self)
                } else {
                    let sv = field_units(fields@[4]@);
                    let ev = if has_ev {
                        field_units(fields@[5]@)
                    } else {
                        sv
                    };
                    &&& r == Ok::<(), ParseStoryboardError>(())
                    &&& final(self).same_surroundings(*old(self))
                    &&& final(self).arena_updated_at(*old(self), h)
                    &&& added_scale(
                        old(self).arena@[h],
                        final(self).arena@[h],
                        easing,
                        start_time,
                        end_time,
                        Num { units: sv as i128 },
                        Num { units: ev as i128 },
                    )
                }
            }),
    {
        if fields.len() < 5 {
            return Err(ParseStoryboardError::InvalidLine);
        }
        let h: usize = match self.timeline_group {
            Some(h) => h,
            None => {
                return Ok(());
            },
        };
        let sv: Num = match parse_num(fields[4].as_slice(), MAX_PARSE_VALUE) {
            Ok(v) => v,
            Err(e) => {
                return Err(ParseStoryboardError::Number(e));
            },
        };
        let ev: Num = if fields.len() >= 6 {
            match parse_num(fields[5].as_slice(), MAX_PARSE_VALUE) {
                Ok(v) => v,
                Err(e) => {
                    return Err(ParseStoryboardError::Number(e));
                },
            }
        } else {
            sv
        };
        self.arena[h].scale.add(easing, start_time, end_time, sv, ev);
        Ok(())
    }

    /// Read a rotation command; angle values keep the source's unit.
    pub fn parse_rotation(
        &mut self,
        fields: &Vec<Vec<u8>>,
        easing: Easing,
        start_time: Num,
        end_time: Num,
    ) -> (r: Result<(), ParseStoryboardError>)
        requires
            old(self).inv(),
            start_time.strict(),
            end_time.strict(),
        ensures
            final(self).inv(),
            fields@.len() < 5 ==> r == Err::<(), ParseStoryboardError>(
                ParseStoryboardError::InvalidLine,
            ) && *final(self) == *old(self),
            fields@.len() >= 5 && old(self).timeline_group is None ==> r == Ok::<
                (),
                ParseStoryboardError,
            >(()) && *final(self) == *old(self),
            fields@.len() >= 5 && old(self).timeline_group is Some ==> ({
                let h = old(self).timeline_group.unwrap() as int;
                let has_ev = fields@.len() >= 6;
                if !field_ok(fields@[4]@, MAX_PARSE_VALUE as int) {
                    r == Err::<(), ParseStoryboardError>(
                        ParseStoryboardError::Number(field_err(fields@[4]@, MAX_PARSE_VALUE as int)),
                    ) && *final(self) == *old(self)
                } else if has_ev && !field_ok(fields@[5]@, MAX_PARSE_VALUE as int) {
                    r == Err::<(), ParseStoryboardError>(
                        ParseStoryboardError::Number(field_err(fields@[5]@, MAX_PARSE_VALUE as int)),
                    ) && *final(self) == *old(self)
                } else {
                    let sv = field_units(fields@[4]@);
                    let ev = if has_ev {
                        field_units(fields@[5]@)
                    } else {
                        sv
                    };
                    &&& r == Ok::<(), ParseStoryboardError>(())
                    &&& final(self).same_surroundings(*old(self))
                    &&& final(self).arena_updated_at(*old(self), h)
                    &&& added_rotation(
                        old(self).arena@[h],
                        final(self).arena@[h],
                        easing,
                        start_time,
                        end_time,
                        Num { units: sv as i128 },
                        Num { units: ev as i128 },
                    )
                }
            }),
    {
        if fields.len() < 5 {
            return Err(ParseStoryboardError::InvalidLine);
        }
        let h: usize = match self.timeline_group {
            Some(h) => h,
            None => {
                return Ok(());
            },
        };
        let sv: Num = match parse_num(fields[4].as_slice(), MAX_PARSE_VALUE) {
            Ok(v) => v,
            Err(e) => {
                return Err(ParseStoryboardError::Number(e));
            },
        };
        let ev: Num = if fields.len() >= 6 {
            match parse_num(fields[5].as_slice(), MAX_PARSE_VALUE) {
                Ok(v) => v,
                Err(e) => {
                    return Err(ParseStoryboardError::Number(e));
                },
            }
        } else {
            sv
        };
        self.arena[h].rotation.add(easing, start_time, end_time, sv, ev);
        Ok(())
    }

    /// Read a horizontal-movement command.
    pub fn parse_x(
        &mut self,
        fields: &Vec<Vec<u8>>,
        easing: Easing,
        start_time: Num,
        end_time: Num,
    ) -> (r: Result<(), ParseStoryboardError>)
        requires
            old(self).inv(),
            start_time.strict(),
            end_time.strict(),
        ensures
            final(self).inv(),
            fields@.len() < 5 ==> r == Err::<(), ParseStoryboardError>(
                ParseStoryboardError::InvalidLine,
            ) && *final(self) == *old(self),
            fields@.len() >= 5 && old(self).timeline_group is None ==> r == Ok::<
                (),
                ParseStoryboardError,
            >(()) && *final(self) == *old(self),
            fields@.len() >= 5 && old(self).timeline_group is Some ==> ({
                let h = old(self).timeline_group.unwrap() as int;
                let has_ev = fields@.len() >= 6;
                if !field_ok(fields@[4]@, MAX_PARSE_VALUE as int) {
                    r == Err::<(), ParseStoryboardError>(
                        ParseStoryboardError::Number(field_err(fields@[4]@, MAX_PARSE_VALUE as int)),
                    ) && *final(self) == *old(self)
                } else if has_ev && !field_ok(fields@[5]@, MAX_PARSE_VALUE as int) {
                    r == Err::<(), ParseStoryboardError>(
                        ParseStoryboardError::Number(field_err(fields@[5]@, MAX_PARSE_VALUE as int)),
                    ) && *final(self) == *old(self)
                } else {
                    let sv = field_units(fields@[4]@);
                    let ev = if has_ev {
                        field_units(fields@[5]@)
                    } else {
                        sv
                    };
                    &&& r == Ok::<(), ParseStoryboardError>(())
                    &&& final(self).same_surroundings(*old(self))
                    &&& final(self).arena_updated_at(*old(self), h)
                    &&& added_x(
                        old(self).arena@[h],
                        final(self).arena@[h],
                        easing,
                        start_time,
                        end_time,
                        Num { units: sv as i128 },
                        Num { units: ev as i128 },
                    )
                }
            }),
    {
        if fields.len() < 5 {
            return Err(ParseStoryboardError::InvalidLine);
        }
        let h: usize = match self.timeline_group {
            Some(h) => h,
            None => {
                return Ok(());
            },
        };
        let sv: Num = match parse_num(fields[4].as_slice(), MAX_PARSE_VALUE) {
            Ok(v) => v,
            Err(e) => {
                return Err(ParseStoryboardError::Number(e));
            },
        };
        let ev: Num = if fields.len() >= 6 {
            match parse_num(fields[5].as_slice(), MAX_PARSE_VALUE) {
                Ok(v) => v,
                Err(e) => {
                    return Err(ParseStoryboardError::Number(e));
                },
            }
        } else {
            sv
        };
        self.arena[h].x.add(easing, start_time, end_time, sv, ev);
        Ok(())
    }

    /// Read a vertical-movement command.
    pub fn parse_y(
        &mut self,
        fields: &Vec<Vec<u8>>,
        easing: Easing,
        start_time: Num,
        end_time: Num,
    ) -> (r: Result<(), ParseStoryboardError>)
        requires
            old(self).inv(),
            start_time.strict(),
            end_time.strict(),
        ensures
            final(self).inv(),
            fields@.len() < 5 ==> r == Err::<(), ParseStoryboardError>(
                ParseStoryboardError::InvalidLine,
            ) && *final(self) == *old(self),
            fields@.len() >= 5 && old(self).timeline_group is None ==> r == Ok::<
                (),
                ParseStoryboardError,
            >(()) && *final(self) == *old(self),
            fields@.len() >= 5 && old(self).timeline_group is Some ==> ({
                let h = old(self).timeline_group.unwrap() as int;
                let has_ev = fields@.len() >= 6;
                if !field_ok(fields@[4]@, MAX_PARSE_VALUE as int) {
                    r == Err::<(), ParseStoryboardError>(
                        ParseStoryboardError::Number(field_err(fields@[4]@, MAX_PARSE_VALUE as int)),
                    ) && *final(self) == *old(self)
                } else if has_ev && !field_ok(fields@[5]@, MAX_PARSE_VALUE as int) {
                    r == Err::<(), ParseStoryboardError>(
                        ParseStoryboardError::Number(field_err(fields@[5]@, MAX_PARSE_VALUE as int)),
                    ) && *final(self) == *old(self)
                } else {
                    let sv = field_units(fields@[4]@);
                    let ev = if has_ev {
                        field_units(fields@[5]@)
                    } else {
                        sv
                    };
                    &&& r == Ok::<(), ParseStoryboardError>(())
                    &&& final(self).same_surroundings(*old(self))
                    &&& final(self).arena_updated_at(*old(self), h)
                    &&& added_y(
                        old(self).arena@[h],
                        final(self).arena@[h],
                        easing,
                        start_time,
                        end_time,
                        Num { units: sv as i128 },
                        Num { units: ev as i128 },
                    )
                }
            }),
    {
        if fields.len() < 5 {
            return Err(ParseStoryboardError::InvalidLine);
        }
        let h: usize = match self.timeline_group {
            Some(h) => h,
            None => {
                return Ok(());
            },
        };
        let sv: Num = match parse_num(fields[4].as_slice(), MAX_PARSE_VALUE) {
            Ok(v) => v,
            Err(e) => {
                return Err(ParseStoryboardError::Number(e));
            },
        };
        let ev: Num = if fields.len() >= 6 {
            match parse_num(fields[5].as_slice(), MAX_PARSE_VALUE) {
                Ok(v) => v,
                Err(e) => {
                    return Err(ParseStoryboardError::Number(e));
                },
            }
        } else {
            sv
        };
        self.arena[h].y.add(easing, start_time, end_time, sv, ev);
        Ok(())
    }
}


impl StoryboardState {
    /// Read a move command into the two movement timelines.
    pub fn parse_pos(
        &mut self,
        fields: &Vec<Vec<u8>>,
        easing: Easing,
        start_time: Num,
        end_time: Num,
    ) -> (r: Result<(), ParseStoryboardError>)
        requires
            old(self).inv(),
            start_time.strict(),
            end_time.strict(),
        ensures
            final(self).inv(),
            fields@.len() < 6 ==> r == Err::<(), ParseStoryboardError>(
                ParseStoryboardError::InvalidLine,
            ) && *final(self) == *old(self),
            fields@.len() >= 6 && old(self).timeline_group is None ==> r == Ok::<
                (),
                ParseStoryboardError,
            >(()) && *final(self) == *old(self),
            fields@.len() >= 6 && old(self).timeline_group is Some ==> ({
                let h = old(self).timeline_group.unwrap() as int;
                if !field_ok(fields@[4]@, MAX_PARSE_VALUE as int) {
                    r == Err::<(), ParseStoryboardError>(
                        ParseStoryboardError::Number(field_err(fields@[4]@, MAX_PARSE_VALUE as int)),
                    ) && *final(self) == *old(self)
                } else if !field_ok(fields@[5]@, MAX_PARSE_VALUE as int) {
                    r == Err::<(), ParseStoryboardError>(
                        ParseStoryboardError::Number(field_err(fields@[5]@, MAX_PARSE_VALUE as int)),
                    ) && *final(self) == *old(self)
                } else if fields@.len() >= 7 && !field_ok(fields@[6]@, MAX_PARSE_VALUE as int) {
                    r == Err::<(), ParseStoryboardError>(
                        ParseStoryboardError::Number(field_err(fields@[6]@, MAX_PARSE_VALUE as int)),
                    ) && *final(self) == *old(self)
                } else if fields@.len() >= 8 && !field_ok(fields@[7]@, MAX_PARSE_VALUE as int) {
                    r == Err::<(), ParseStoryboardError>(
                        ParseStoryboardError::Number(field_err(fields@[7]@, MAX_PARSE_VALUE as int)),
                    ) && *final(self) == *old(self)
                } else {
                    let sx = field_units(fields@[4]@);
                    let sy = field_units(fields@[5]@);
                    let ex = if fields@.len() >= 7 {
                        field_units(fields@[6]@)
                    } else {
                        sx
                    };
                    let ey = if fields@.len() >= 8 {
                        field_units(fields@[7]@)
                    } else {
                        sy
                    };
                    &&& r == Ok::<(), ParseStoryboardError>(())
                    &&& final(self).same_surroundings(*old(self))
                    &&& final(self).arena_updated_at(*old(self), h)
                    &&& added_pos(
                        old(self).arena@[h],
                        final(self).arena@[h],
                        easing,
                        start_time,
                        end_time,
                        Num { units: sx as i128 },
                        Num { units: sy as i128 },
                        Num { units: ex as i128 },
                        Num { units: ey as i128 },
                    )
                }
            }),
    {
        if fields.len() < 6 {
            return Err(ParseStoryboardError::InvalidLine);
        }
        let h: usize = match self.timeline_group {
            Some(h) => h,
            None => {
                return Ok(());
            },
        };
        let sx: Num = match parse_num(fields[4].as_slice(), MAX_PARSE_VALUE) {
            Ok(v) => v,
            Err(e) => {
                return Err(ParseStoryboardError::Number(e));
            },
        };
        let sy: Num = match parse_num(fields[5].as_slice(), MAX_PARSE_VALUE) {
            Ok(v) => v,
            Err(e) => {
                return Err(ParseStoryboardError::Number(e));
            },
        };
        let ex: Num = if fields.len() >= 7 {
            match parse_num(fields[6].as_slice(), MAX_PARSE_VALUE) {
                Ok(v) => v,
                Err(e) => {
                    return Err(ParseStoryboardError::Number(e));
                },
            }
        } else {
            sx
        };
        let ey: Num = if fields.len() >= 8 {
            match parse_num(fields[7].as_slice(), MAX_PARSE_VALUE) {
                Ok(v) => v,
                Err(e) => {
                    return Err(ParseStoryboardError::Number(e));
                },
            }
        } else {
            sy
        };
        self.arena[h].x.add(easing, start_time, end_time, sx, ex);
        self.arena[h].y.add(easing, start_time, end_time, sy, ey);
        Ok(())
    }

    /// Read a vector-scale command.
    pub fn parse_vector_scale(
        &mut self,
        fields: &Vec<Vec<u8>>,
        easing: Easing,
        start_time: Num,
        end_time: Num,
    ) -> (r: Result<(), ParseStoryboardError>)
        requires
            old(self).inv(),
            start_time.strict(),
            end_time.strict(),
        ensures
            final(self).inv(),
            fields@.len() < 6 ==> r == Err::<(), ParseStoryboardError>(
                ParseStoryboardError::InvalidLine,
            ) && *final(self) == *old(self),
            fields@.len() >= 6 && old(self).timeline_group is None ==> r == Ok::<
                (),
                ParseStoryboardError,
            >(()) && *final(self) == *old(self),
            fields@.len() >= 6 && old(self).timeline_group is Some ==> ({
                let h = old(self).timeline_group.unwrap() as int;
                if !field_ok(fields@[4]@, MAX_PARSE_VALUE as int) {
                    r == Err::<(), ParseStoryboardError>(
                        ParseStoryboardError::Number(field_err(fields@[4]@, MAX_PARSE_VALUE as int)),
                    ) && *final(self) == *old(self)
                } else if !field_ok(fields@[5]@, MAX_PARSE_VALUE as int) {
                    r == Err::<(), ParseStoryboardError>(
                        ParseStoryboardError::Number(field_err(fields@[5]@, MAX_PARSE_VALUE as int)),
                    ) && *final(self) == *old(self)
                } else if fields@.len() >= 7 && !field_ok(fields@[6]@, MAX_PARSE_VALUE as int) {
                    r == Err::<(), ParseStoryboardError>(
                        ParseStoryboardError::Number(field_err(fields@[6]@, MAX_PARSE_VALUE as int)),
                    ) && *final(self) == *old(self)
                } else if fields@.len() >= 8 && !field_ok(fields@[7]@, MAX_PARSE_VALUE as int) {
                    r == Err::<(), ParseStoryboardError>(
                        ParseStoryboardError::Number(field_err(fields@[7]@, MAX_PARSE_VALUE as int)),
                    ) && *final(self) == *old(self)
                } else {
                    let sx = field_units(fields@[4]@);
                    let sy = field_units(fields@[5]@);
                    let ex = if fields@.len() >= 7 {
                        field_units(fields@[6]@)
                    } else {
                        sx
                    };
                    let ey = if fields@.len() >= 8 {
                        field_units(fields@[7]@)
                    } else {
                        sy
                    };
                    &&& r == Ok::<(), ParseStoryboardError>(())
                    &&& final(self).same_surroundings(*old(self))
                    &&& final(self).arena_updated_at(*old(self), h)
                    &&& added_vector_scale(
                        old(self).arena@[h],
                        final(self).arena@[h],
                        easing,
                        start_time,
                        end_time,
                        Pos { x: Num { units: sx as i128 }, y: Num { units: sy as i128 } },
                        Pos { x: Num { units: ex as i128 }, y: Num { units: ey as i128 } },
                    )
                }
            }),
    {
        if fields.len() < 6 {
            return Err(ParseStoryboardError::InvalidLine);
        }
        let h: usize = match self.timeline_group {
            Some(h) => h,
            None => {
                return Ok(());
            },
        };
        let sx: Num = match parse_num(fields[4].as_slice(), MAX_PARSE_VALUE) {
            Ok(v) => v,
            Err(e) => {
                return Err(ParseStoryboardError::Number(e));
            },
        };
        let sy: Num = match parse_num(fields[5].as_slice(), MAX_PARSE_VALUE) {
            Ok(v) => v,
            Err(e) => {
                return Err(ParseStoryboardError::Number(e));
            },
        };
        let ex: Num = if fields.len() >= 7 {
            match parse_num(fields[6].as_slice(), MAX_PARSE_VALUE) {
                Ok(v) => v,
                Err(e) => {
                    return Err(ParseStoryboardError::Number(e));
                },
            }
        } else {
            sx
        };
        let ey: Num = if fields.len() >= 8 {
            match parse_num(fields[7].as_slice(), MAX_PARSE_VALUE) {
                Ok(v) => v,
                Err(e) => {
                    return Err(ParseStoryboardError::Number(e));
                },
            }
        } else {
            sy
        };
        self.arena[h].vector_scale.add(
            easing,
            start_time,
            end_time,
            Pos { x: sx, y: sy },
            Pos { x: ex, y: ey },
        );
        Ok(())
    }
}


impl StoryboardState {
    /// Read a colour command; channels are truncated into bytes and the
    /// alpha channel always rests at its ceiling.
    pub fn parse_color(
        &mut self,
        fields: &Vec<Vec<u8>>,
        easing: Easing,
        start_time: Num,
        end_time: Num,
    ) -> (r: Result<(), ParseStoryboardError>)
        requires
            old(self).inv(),
            start_time.strict(),
            end_time.strict(),
        ensures
            final(self).inv(),
            fields@.len() < 7 ==> r == Err::<(), ParseStoryboardError>(
                ParseStoryboardError::InvalidLine,
            ) && *final(self) == *old(self),
            fields@.len() >= 7 && old(self).timeline_group is None ==> r == Ok::<
                (),
                ParseStoryboardError,
            >(()) && *final(self) == *old(self),
            fields@.len() >= 7 && old(self).timeline_group is Some ==> ({
                let h = old(self).timeline_group.unwrap() as int;
                if !field_ok(fields@[4]@, MAX_PARSE_VALUE as int) {
                    r == Err::<(), ParseStoryboardError>(
                        ParseStoryboardError::Number(field_err(fields@[4]@, MAX_PARSE_VALUE as int)),
                    ) && *final(self) == *old(self)
                } else if !field_ok(fields@[5]@, MAX_PARSE_VALUE as int) {
                    r == Err::<(), ParseStoryboardError>(
                        ParseStoryboardError::Number(field_err(fields@[5]@, MAX_PARSE_VALUE as int)),
                    ) && *final(self) == *old(self)
                } else if !field_ok(fields@[6]@, MAX_PARSE_VALUE as int) {
                    r == Err::<(), ParseStoryboardError>(
                        ParseStoryboardError::Number(field_err(fields@[6]@, MAX_PARSE_VALUE as int)),
                    ) && *final(self) == *old(self)
                } else if fields@.len() >= 8 && !field_ok(fields@[7]@, MAX_PARSE_VALUE as int) {
                    r == Err::<(), ParseStoryboardError>(
                        ParseStoryboardError::Number(field_err(fields@[7]@, MAX_PARSE_VALUE as int)),
                    ) && *final(self) == *old(self)
                } else if fields@.len() >= 9 && !field_ok(fields@[8]@, MAX_PARSE_VALUE as int) {
                    r == Err::<(), ParseStoryboardError>(
                        ParseStoryboardError::Number(field_err(fields@[8]@, MAX_PARSE_VALUE as int)),
                    ) && *final(self) == *old(self)
                } else if fields@.len() >= 10 && !field_ok(fields@[9]@, MAX_PARSE_VALUE as int) {
                    r == Err::<(), ParseStoryboardError>(
                        ParseStoryboardError::Number(field_err(fields@[9]@, MAX_PARSE_VALUE as int)),
                    ) && *final(self) == *old(self)
                } else {
                    let sr = field_units(fields@[4]@);
                    let sg = field_units(fields@[5]@);
                    let sb = field_units(fields@[6]@);
                    let er = if fields@.len() >= 8 {
                        field_units(fields@[7]@)
                    } else {
                        sr
                    };
                    let eg = if fields@.len() >= 9 {
                        field_units(fields@[8]@)
                    } else {
                        sg
                    };
                    let eb = if fields@.len() >= 10 {
                        field_units(fields@[9]@)
                    } else {
                        sb
                    };
                    &&& r == Ok::<(), ParseStoryboardError>(())
                    &&& final(self).same_surroundings(*old(self))
                    &&& final(self).arena_updated_at(*old(self), h)
                    &&& added_color(
                        old(self).arena@[h],
                        final(self).arena@[h],
                        easing,
                        start_time,
                        end_time,
                        crate::visual::Color {
                            red: crate::num::units_to_u8(sr) as u8,
                            green: crate::num::units_to_u8(sg) as u8,
                            blue: crate::num::units_to_u8(sb) as u8,
                            alpha: 255,
                        },
                        crate::visual::Color {
                            red: crate::num::units_to_u8(er) as u8,
                            green: crate::num::units_to_u8(eg) as u8,
                            blue: crate::num::units_to_u8(eb) as u8,
                            alpha: 255,
                        },
                    )
                }
            }),
    {
        if fields.len() < 7 {
            return Err(ParseStoryboardError::InvalidLine);
        }
        let h: usize = match self.timeline_group {
            Some(h) => h,
            None => {
                return Ok(());
            },
        };
        let sr: Num = match parse_num(fields[4].as_slice(), MAX_PARSE_VALUE) {
            Ok(v) => v,
            Err(e) => {
                return Err(ParseStoryboardError::Number(e));
            },
        };
        let sg: Num = match parse_num(fields[5].as_slice(), MAX_PARSE_VALUE) {
            Ok(v) => v,
            Err(e) => {
                return Err(ParseStoryboardError::Number(e));
            },
        };
        let sb: Num = match parse_num(fields[6].as_slice(), MAX_PARSE_VALUE) {
            Ok(v) => v,
            Err(e) => {
                return Err(ParseStoryboardError::Number(e));
            },
        };
        let er: Num = if fields.len() >= 8 {
            match parse_num(fields[7].as_slice(), MAX_PARSE_VALUE) {
                Ok(v) => v,
                Err(e) => {
                    return Err(ParseStoryboardError::Number(e));
                },
            }
        } else {
            sr
        };
        let eg: Num = if fields.len() >= 9 {
            match parse_num(fields[8].as_slice(), MAX_PARSE_VALUE) {
                Ok(v) => v,
                Err(e) => {
                    return Err(ParseStoryboardError::Number(e));
                },
            }
        } else {
            sg
        };
        let eb: Num = if fields.len() >= 10 {
            match parse_num(fields[9].as_slice(), MAX_PARSE_VALUE) {
                Ok(v) => v,
                Err(e) => {
                    return Err(ParseStoryboardError::Number(e));
                },
            }
        } else {
            sb
        };
        let start_color = crate::visual::Color {
            red: sr.to_u8_sat(),
            green: sg.to_u8_sat(),
            blue: sb.to_u8_sat(),
            alpha: 255,
        };
        let end_color = crate::visual::Color {
            red: er.to_u8_sat(),
            green: eg.to_u8_sat(),
            blue: eb.to_u8_sat(),
            alpha: 255,
        };
        self.arena[h].color.add(easing, start_time, end_time, start_color, end_color);
        Ok(())
    }

    /// Record a blending parameter command: additive while it runs, kept
    /// only when instantaneous.
    pub fn add_blending(&mut self, easing: Easing, start_time: Num, end_time: Num)
        requires
            old(self).inv(),
            start_time.strict(),
            end_time.strict(),
        ensures
            final(self).inv(),
            old(self).timeline_group is None ==> *final(self) == *old(self),
            old(self).timeline_group is Some ==> ({
                let h = old(self).timeline_group.unwrap() as int;
                &&& final(self).same_surroundings(*old(self))
                &&& final(self).arena_updated_at(*old(self), h)
                &&& added_blending(
                    old(self).arena@[h],
                    final(self).arena@[h],
                    easing,
                    start_time,
                    end_time,
                )
            }),
    {
        let h: usize = match self.timeline_group {
            Some(h) => h,
            None => {
                return ;
            },
        };
        let end_value: BlendingParameters = if start_time.units == end_time.units {
            BlendingParameters::additive()
        } else {
            BlendingParameters::inherit()
        };
        self.arena[h].blending_parameters.add(
            easing,
            start_time,
            end_time,
            BlendingParameters::additive(),
            end_value,
        );
    }

    /// Record a horizontal-flip command: flipped while it runs, kept only
    /// when instantaneous.
    pub fn add_flip_h(&mut self, easing: Easing, start_time: Num, end_time: Num)
        requires
            old(self).inv(),
            start_time.strict(),
            end_time.strict(),
        ensures
            final(self).inv(),
            old(self).timeline_group is None ==> *final(self) == *old(self),
            old(self).timeline_group is Some ==> ({
                let h = old(self).timeline_group.unwrap() as int;
                &&& final(self).same_surroundings(*old(self))
                &&& final(self).arena_updated_at(*old(self), h)
                &&& added_flip_h(
                    old(self).arena@[h],
                    final(self).arena@[h],
                    easing,
                    start_time,
                    end_time,
                )
            }),
    {
        let h: usize = match self.timeline_group {
            Some(h) => h,
            None => {
                return ;
            },
        };
        let instantaneous: bool = start_time.units == end_time.units;
        self.arena[h].flip_h.add(easing, start_time, end_time, true, instantaneous);
    }

    /// Record a vertical-flip command.
    pub fn add_flip_v(&mut self, easing: Easing, start_time: Num, end_time: Num)
        requires
            old(self).inv(),
            start_time.strict(),
            end_time.strict(),
        ensures
            final(self).inv(),
            old(self).timeline_group is None ==> *final(self) == *old(self),
            old(self).timeline_group is Some ==> ({
                let h = old(self).timeline_group.unwrap() as int;
                &&& final(self).same_surroundings(*old(self))
                &&& final(self).arena_updated_at(*old(self), h)
                &&& added_flip_v(
                    old(self).arena@[h],
                    final(self).arena@[h],
                    easing,
                    start_time,
                    end_time,
                )
            }),
    {
        let h: usize = match self.timeline_group {
            Some(h) => h,
            None => {
                return ;
            },
        };
        let instantaneous: bool = start_time.units == end_time.units;
        self.arena[h].flip_v.add(easing, start_time, end_time, true, instantaneous);
    }

    /// Open a loop scope on the pending element: a fresh group joins the
    /// arena and becomes the current target. A repeat count below one still
    /// plays once.
    pub fn parse_loop(&mut self, fields: &Vec<Vec<u8>>) -> (r: Result<(), ParseStoryboardError>)
        requires
            old(self).inv(),
        ensures
            final(self).inv(),
            fields@.len() < 3 ==> r == Err::<(), ParseStoryboardError>(
                ParseStoryboardError::InvalidLine,
            ) && *final(self) == *old(self),
            fields@.len() >= 3 && old(self).sprite.0 is None ==> r == Ok::<
                (),
                ParseStoryboardError,
            >(()) && *final(self) == *old(self),
            fields@.len() >= 3 && old(self).sprite.0 is Some ==> ({
                if !field_ok(fields@[1]@, MAX_PARSE_VALUE as int) {
                    r == Err::<(), ParseStoryboardError>(
                        ParseStoryboardError::Number(field_err(fields@[1]@, MAX_PARSE_VALUE as int)),
                    ) && *final(self) == *old(self)
                } else if !int_field_ok(fields@[2]@) {
                    r == Err::<(), ParseStoryboardError>(
                        ParseStoryboardError::Number(int_field_err(fields@[2]@)),
                    ) && *final(self) == *old(self)
                } else {
                    let st = field_units(fields@[1]@);
                    let rep = int_field_val(fields@[2]@);
                    let iters: int = if rep > 1 {
                        rep
                    } else {
                        1
                    };
                    &&& r == Ok::<(), ParseStoryboardError>(())
                    &&& final(self).arena@.len() == old(self).arena@.len() + 1
                    &&& forall|i: int|
                        0 <= i < old(self).arena@.len() ==> final(self).arena@[i] == old(
                            self,
                        ).arena@[i]
                    &&& final(self).arena@.last().inv() && final(self).arena@.last().is_empty()
                    &&& final(self).timeline_group is Some
                    &&& final(self).timeline_group.unwrap() as int == old(self).arena@.len()
                    &&& pending_loop_pushed(
                        old(self).sprite,
                        final(self).sprite,
                        CommandLoopInternal {
                            group: old(self).arena@.len() as usize,
                            loop_start_time: Num { units: st as i128 },
                            total_iterations: iters as u32,
                        },
                    )
                    &&& final(self).format_version == old(self).format_version
                    &&& final(self).use_skin_sprites == old(self).use_skin_sprites
                    &&& final(self).background_file == old(self).background_file
                    &&& final(self).breaks == old(self).breaks
                    &&& final(self).storyboard == old(self).storyboard
                    &&& final(self).variables == old(self).variables
                }
            }),
    {
        if fields.len() < 3 {
            return Err(ParseStoryboardError::InvalidLine);
        }
        match self.sprite.inner() {
            None => {
                return Ok(());
            },
            Some(_) => {},
        }
        let st: Num = match parse_num(fields[1].as_slice(), MAX_PARSE_VALUE) {
            Ok(v) => v,
            Err(e) => {
                return Err(ParseStoryboardError::Number(e));
            },
        };
        let rep: i32 = match parse_i32(fields[2].as_slice()) {
            Ok(v) => v,
            Err(e) => {
                return Err(ParseStoryboardError::Number(e));
            },
        };
        let repeat_count: i32 = if rep - 1 > 0 {
            rep - 1
        } else {
            0
        };
        let h = self.alloc_group();
        self.sprite.push_loop(
            CommandLoopInternal {
                group: h,
                loop_start_time: st,
                total_iterations: (repeat_count as u32) + 1,
            },
        );
        self.timeline_group = Some(h);
        proof {
            let ns = self.sprite.0.unwrap().kind.sprite();
            let os = old(self).sprite.0.unwrap().kind.sprite();
            assert(forall|i: int|
                0 <= i < os.loops@.len() ==> #[trigger] ns.loops@[i] == os.loops@[i]);
            assert(ns.handles_ok(self.arena@.len() as int));
        }
        Ok(())
    }

    /// Open a trigger scope on the pending element: a fresh group joins the
    /// arena and becomes the current target. A window end left unsaid rests
    /// at the saturation bounds, the group number at zero.
    pub fn parse_trigger(&mut self, fields: &Vec<Vec<u8>>) -> (r: Result<(), ParseStoryboardError>)
        requires
            old(self).inv(),
        ensures
            final(self).inv(),
            fields@.len() < 2 ==> r == Err::<(), ParseStoryboardError>(
                ParseStoryboardError::InvalidLine,
            ) && *final(self) == *old(self),
            fields@.len() >= 2 && old(self).sprite.0 is None ==> r == Ok::<
                (),
                ParseStoryboardError,
            >(()) && *final(self) == *old(self),
            fields@.len() >= 2 && old(self).sprite.0 is Some ==> ({
                if fields@.len() >= 3 && !field_ok(fields@[2]@, MAX_PARSE_VALUE as int) {
                    r == Err::<(), ParseStoryboardError>(
                        ParseStoryboardError::Number(field_err(fields@[2]@, MAX_PARSE_VALUE as int)),
                    ) && *final(self) == *old(self)
                } else if fields@.len() >= 4 && !field_ok(fields@[3]@, MAX_PARSE_VALUE as int) {
                    r == Err::<(), ParseStoryboardError>(
                        ParseStoryboardError::Number(field_err(fields@[3]@, MAX_PARSE_VALUE as int)),
                    ) && *final(self) == *old(self)
                } else if fields@.len() >= 5 && !int_field_ok(fields@[4]@) {
                    r == Err::<(), ParseStoryboardError>(
                        ParseStoryboardError::Number(int_field_err(fields@[4]@)),
                    ) && *final(self) == *old(self)
                } else {
                    let st = if fields@.len() >= 3 {
                        field_units(fields@[2]@)
                    } else {
                        -(UNITS_CAP as int)
                    };
                    let et = if fields@.len() >= 4 {
                        field_units(fields@[3]@)
                    } else {
                        UNITS_CAP as int
                    };
                    let gn = if fields@.len() >= 5 {
                        int_field_val(fields@[4]@)
                    } else {
                        0
                    };
                    &&& r == Ok::<(), ParseStoryboardError>(())
                    &&& final(self).arena@.len() == old(self).arena@.len() + 1
                    &&& forall|i: int|
                        0 <= i < old(self).arena@.len() ==> final(self).arena@[i] == old(
                            self,
                        ).arena@[i]
                    &&& final(self).arena@.last().inv() && final(self).arena@.last().is_empty()
                    &&& final(self).timeline_group is Some
                    &&& final(self).timeline_group.unwrap() as int == old(self).arena@.len()
                    &&& pending_trigger_pushed(
                        old(self).sprite,
                        final(self).sprite,
                        old(self).arena@.len() as int,
                        fields@[1]@,
                        st,
                        et,
                        gn,
                    )
                    &&& final(self).format_version == old(self).format_version
                    &&& final(self).use_skin_sprites == old(self).use_skin_sprites
                    &&& final(self).background_file == old(self).background_file
                    &&& final(self).breaks == old(self).breaks
                    &&& final(self).storyboard == old(self).storyboard
                    &&& final(self).variables == old(self).variables
                }
            }),
    {
        if fields.len() < 2 {
            return Err(ParseStoryboardError::InvalidLine);
        }
        match self.sprite.inner() {
            None => {
                return Ok(());
            },
            Some(_) => {},
        }
        let st: Num = if fields.len() >= 3 {
            match parse_num(fields[2].as_slice(), MAX_PARSE_VALUE) {
                Ok(v) => v,
                Err(e) => {
                    return Err(ParseStoryboardError::Number(e));
                },
            }
        } else {
            Num::min_value()
        };
        let et: Num = if fields.len() >= 4 {
            match parse_num(fields[3].as_slice(), MAX_PARSE_VALUE) {
                Ok(v) => v,
                Err(e) => {
                    return Err(ParseStoryboardError::Number(e));
                },
            }
        } else {
            Num::max_value()
        };
        let gn: i32 = if fields.len() >= 5 {
            match parse_i32(fields[4].as_slice()) {
                Ok(v) => v,
                Err(e) => {
                    return Err(ParseStoryboardError::Number(e));
                },
            }
        } else {
            0
        };
        let name = crate::layer::slice_to_vec(fields[1].as_slice());
        let h = self.alloc_group();
        self.sprite.push_trigger(
            CommandTriggerInternal { group: h, name, start_time: st, end_time: et, group_num: gn },
        );
        self.timeline_group = Some(h);
        proof {
            let ns = self.sprite.0.unwrap().kind.sprite();
            let os = old(self).sprite.0.unwrap().kind.sprite();
            assert(forall|i: int|
                0 <= i < os.triggers@.len() ==> #[trigger] ns.triggers@[i] == ns.triggers@.drop_last()[i]);
            assert(ns.handles_ok(self.arena@.len() as int));
        }
        Ok(())
    }
}


/// The views of the comma-separated fields.
pub open spec fn field_views(fields: Seq<Vec<u8>>) -> Seq<Seq<u8>> {
    fields.map_values(|v: Vec<u8>| v@)
}

/// An upper-case ASCII letter lowered, anything else unchanged.
pub open spec fn lc(b: u8) -> u8 {
    if 65 <= b <= 90 {
        (b + 32) as u8
    } else {
        b
    }
}

/// Whether a path's last three bytes name a known video container.
pub open spec fn is_video_ext(p: Seq<u8>) -> bool {
    p.len() >= 3 && ({
        let a = lc(p[p.len() - 3]);
        let b = lc(p[p.len() - 2]);
        let c = lc(p[p.len() - 1]);
        ||| (a == 109 && b == 112 && c == 52)  // mp4
        ||| (a == 109 && b == 111 && c == 118)  // mov
        ||| (a == 97 && b == 118 && c == 105)  // avi
        ||| (a == 102 && b == 108 && c == 118)  // flv
        ||| (a == 109 && b == 112 && c == 103)  // mpg
        ||| (a == 119 && b == 109 && c == 118)  // wmv
        ||| (a == 109 && b == 52 && c == 118)  // m4v
    })
}

/// The legacy rescale of an animation's frame delay, in billionths: the
/// delay times fifteen thousandths is rounded half away from zero to a
/// frame step, which is then scaled by 1.186 sixtieths of a second.
pub open spec fn rescale_units(d: int) -> int {
    let num = 15 * d;
    let r = if num >= 0 {
        (num + 500_000_000_000) / 1_000_000_000_000
    } else {
        -(((-num) + 500_000_000_000) / 1_000_000_000_000)
    };
    let t = r * 1186 * 1_000_000_000;
    if t >= 0 {
        t / 60
    } else {
        -((-t) / 60)
    }
}

/// Apply the legacy frame-delay rescale.
pub fn rescale_frame_delay(d: Num) -> (r: Num)
    requires
        -2147483647 * (SCALE as int) <= d.units as int <= 2147483647 * (SCALE as int),
    ensures
        r.units as int == rescale_units(d.units as int),
        r.bounded(),
{
    let num: i128 = 15 * d.units;
    let step: i128 = if num >= 0 {
        (num + 500_000_000_000) / 1_000_000_000_000
    } else {
        -(((-num) + 500_000_000_000) / 1_000_000_000_000)
    };
    proof {
        assert(0 <= (15 * 2147483647 * (SCALE as int) + 500_000_000_000) / 1_000_000_000_000
            < 100_000_000int) by (nonlinear_arith);
        if num >= 0 {
            assert((num + 500_000_000_000) / 1_000_000_000_000 <= (15 * 2147483647 * (
            SCALE as int) + 500_000_000_000) / 1_000_000_000_000) by (nonlinear_arith)
                requires
                    0 <= num <= 15 * 2147483647 * (SCALE as int),
            ;
            assert(0 <= (num + 500_000_000_000) / 1_000_000_000_000) by (nonlinear_arith)
                requires
                    0 <= num,
            ;
        } else {
            assert(((-num) + 500_000_000_000) / 1_000_000_000_000 <= (15 * 2147483647 * (
            SCALE as int) + 500_000_000_000) / 1_000_000_000_000) by (nonlinear_arith)
                requires
                    0 <= -num <= 15 * 2147483647 * (SCALE as int),
            ;
            assert(0 <= ((-num) + 500_000_000_000) / 1_000_000_000_000) by (nonlinear_arith)
                requires
                    0 <= -num,
            ;
        }
        assert(-100_000_000 <= step as int <= 100_000_000);
    }
    let t: i128 = step * 1186 * 1_000_000_000;
    proof {
        assert(-(UNITS_CAP as int) <= step as int * 1186 * 1_000_000_000 <= UNITS_CAP as int)
            by (nonlinear_arith)
            requires
                -100_000_000 <= step as int <= 100_000_000,
                UNITS_CAP == 1_000_000_000_000_000_000_000_000_000_000i128,
        ;
    }
    let out: i128 = if t >= 0 {
        t / 60
    } else {
        -((-t) / 60)
    };
    proof {
        if t >= 0 {
            assert(0 <= t as int / 60 <= t as int) by (nonlinear_arith)
                requires
                    0 <= t as int,
            ;
        } else {
            assert(0 <= (-t) as int / 60 <= (-t) as int) by (nonlinear_arith)
                requires
                    0 <= -t as int,
            ;
        }
    }
    Num { units: out }
}

/// The state with only its layers changed.
pub open spec fn same_but_storyboard(o: StoryboardState, f: StoryboardState) -> bool {
    &&& f.format_version == o.format_version
    &&& f.use_skin_sprites == o.use_skin_sprites
    &&& f.background_file == o.background_file
    &&& f.breaks == o.breaks
    &&& f.sprite == o.sprite
    &&& f.timeline_group == o.timeline_group
    &&& f.variables == o.variables
    &&& f.arena == o.arena
}

/// The state with only its background path changed.
pub open spec fn same_but_background(o: StoryboardState, f: StoryboardState) -> bool {
    &&& f.format_version == o.format_version
    &&& f.use_skin_sprites == o.use_skin_sprites
    &&& f.storyboard == o.storyboard
    &&& f.breaks == o.breaks
    &&& f.sprite == o.sprite
    &&& f.timeline_group == o.timeline_group
    &&& f.variables == o.variables
    &&& f.arena == o.arena
}

/// What a video event does: with a known video extension it lands in the
/// video layer; with any other extension of length three or more the path
/// becomes the background; a shorter path does nothing.
pub open spec fn video_effect(
    o: StoryboardState,
    f: StoryboardState,
    fields: Seq<Seq<u8>>,
    r: Result<(), ParseStoryboardError>,
) -> bool {
    if fields.len() < 3 {
        r == Err::<(), ParseStoryboardError>(ParseStoryboardError::InvalidLine) && f == o
    } else if !int_field_ok(fields[1]) {
        r == Err::<(), ParseStoryboardError>(
            ParseStoryboardError::Number(int_field_err(fields[1])),
        ) && f == o
    } else {
        let path = clean_filename_spec(fields[2]);
        let off = int_field_val(fields[1]);
        &&& r == Ok::<(), ParseStoryboardError>(())
        &&& if path.len() < 3 {
            f == o
        } else if is_video_ext(path) {
            placed(
                o.storyboard,
                f.storyboard,
                "Video".spec_bytes(),
                path,
                ElementKindInternal::Video(
                    StoryboardVideo { start_time: Num { units: (off * (SCALE as int)) as i128 } },
                ),
            ) && same_but_storyboard(o, f)
        } else {
            f.background_file@ == path && same_but_background(o, f)
        }
    }
}

/// What a sprite event does: the pending slot is replaced by a fresh
/// sprite, and an empty background adopts the sprite's path.
pub open spec fn sprite_effect(
    o: StoryboardState,
    f: StoryboardState,
    fields: Seq<Seq<u8>>,
    r: Result<(), ParseStoryboardError>,
) -> bool {
    if fields.len() < 6 {
        r == Err::<(), ParseStoryboardError>(ParseStoryboardError::InvalidLine) && f == o
    } else if !field_ok(fields[4], MAX_COORDINATE_VALUE as int) {
        r == Err::<(), ParseStoryboardError>(
            ParseStoryboardError::Number(field_err(fields[4], MAX_COORDINATE_VALUE as int)),
        ) && f == o
    } else if !field_ok(fields[5], MAX_COORDINATE_VALUE as int) {
        r == Err::<(), ParseStoryboardError>(
            ParseStoryboardError::Number(field_err(fields[5], MAX_COORDINATE_VALUE as int)),
        ) && f == o
    } else {
        let path = clean_filename_spec(fields[3]);
        &&& r == Ok::<(), ParseStoryboardError>(())
        &&& f.arena@.len() == o.arena@.len() + 1
        &&& forall|i: int| 0 <= i < o.arena@.len() ==> f.arena@[i] == o.arena@[i]
        &&& f.arena@.last().inv() && f.arena@.last().is_empty()
        &&& f.sprite.0 is Some
        &&& f.sprite.0.unwrap().path@ == path
        &&& f.sprite.0.unwrap().layer@ == crate::layer::layer_name_of_field(fields[1])
        &&& match f.sprite.0.unwrap().kind {
            PendingSpriteKind::Sprite(sp) => {
                &&& sp.origin == crate::visual::anchor_of_origins(
                    crate::visual::origins_of_field(fields[2]),
                )
                &&& sp.initial_pos == Pos {
                    x: Num { units: field_units(fields[4]) as i128 },
                    y: Num { units: field_units(fields[5]) as i128 },
                }
                &&& sp.timeline_group as int == o.arena@.len()
                &&& sp.loops@.len() == 0
                &&& sp.triggers@.len() == 0
            },
            _ => false,
        }
        &&& f.background_file@ == if o.background_file@.len() == 0 {
            path
        } else {
            o.background_file@
        }
        &&& f.storyboard == o.storyboard
        &&& f.breaks == o.breaks
        &&& f.timeline_group == o.timeline_group
        &&& f.variables == o.variables
        &&& f.format_version == o.format_version
        &&& f.use_skin_sprites == o.use_skin_sprites
    }
}

/// What an animation event does: like a sprite, with frame data; under
/// format versions before six the frame delay is rescaled.
pub open spec fn animation_effect(
    o: StoryboardState,
    f: StoryboardState,
    fields: Seq<Seq<u8>>,
    r: Result<(), ParseStoryboardError>,
) -> bool {
    if fields.len() < 8 {
        r == Err::<(), ParseStoryboardError>(ParseStoryboardError::InvalidLine) && f == o
    } else if !field_ok(fields[4], MAX_COORDINATE_VALUE as int) {
        r == Err::<(), ParseStoryboardError>(
            ParseStoryboardError::Number(field_err(fields[4], MAX_COORDINATE_VALUE as int)),
        ) && f == o
    } else if !field_ok(fields[5], MAX_COORDINATE_VALUE as int) {
        r == Err::<(), ParseStoryboardError>(
            ParseStoryboardError::Number(field_err(fields[5], MAX_COORDINATE_VALUE as int)),
        ) && f == o
    } else if !int_field_ok(fields[6]) {
        r == Err::<(), ParseStoryboardError>(
            ParseStoryboardError::Number(int_field_err(fields[6])),
        ) && f == o
    } else if !field_ok(fields[7], MAX_PARSE_VALUE as int) {
        r == Err::<(), ParseStoryboardError>(
            ParseStoryboardError::Number(field_err(fields[7], MAX_PARSE_VALUE as int)),
        ) && f == o
    } else {
        let path = clean_filename_spec(fields[3]);
        let delay = if o.format_version < 6 {
            rescale_units(field_units(fields[7]))
        } else {
            field_units(fields[7])
        };
        &&& r == Ok::<(), ParseStoryboardError>(())
        &&& f.arena@.len() == o.arena@.len() + 1
        &&& forall|i: int| 0 <= i < o.arena@.len() ==> f.arena@[i] == o.arena@[i]
        &&& f.arena@.last().inv() && f.arena@.last().is_empty()
        &&& f.sprite.0 is Some
        &&& f.sprite.0.unwrap().path@ == path
        &&& f.sprite.0.unwrap().layer@ == crate::layer::layer_name_of_field(fields[1])
        &&& match f.sprite.0.unwrap().kind {
            PendingSpriteKind::Animation(a) => {
                &&& a.sprite.origin == crate::visual::anchor_of_origins(
                    crate::visual::origins_of_field(fields[2]),
                )
                &&& a.sprite.initial_pos == Pos {
                    x: Num { units: field_units(fields[4]) as i128 },
                    y: Num { units: field_units(fields[5]) as i128 },
                }
                &&& a.sprite.timeline_group as int == o.arena@.len()
                &&& a.sprite.loops@.len() == 0
                &&& a.sprite.triggers@.len() == 0
                &&& a.frame_count as int == int_field_val(fields[6])
                &&& a.frame_delay.units as int == delay
                &&& a.loop_kind == if fields.len() >= 9 {
                    crate::element::loop_type_of_field(fields[8])
                } else {
                    AnimationLoopType::LoopForever
                }
            },
            _ => false,
        }
        &&& f.background_file == o.background_file
        &&& f.storyboard == o.storyboard
        &&& f.breaks == o.breaks
        &&& f.timeline_group == o.timeline_group
        &&& f.variables == o.variables
        &&& f.format_version == o.format_version
        &&& f.use_skin_sprites == o.use_skin_sprites
    }
}

/// What a sample event does: a timed sound lands in the named layer.
pub open spec fn sample_effect(
    o: StoryboardState,
    f: StoryboardState,
    fields: Seq<Seq<u8>>,
    r: Result<(), ParseStoryboardError>,
) -> bool {
    if fields.len() < 4 {
        r == Err::<(), ParseStoryboardError>(ParseStoryboardError::InvalidLine) && f == o
    } else if !field_ok(fields[1], MAX_PARSE_VALUE as int) {
        r == Err::<(), ParseStoryboardError>(
            ParseStoryboardError::Number(field_err(fields[1], MAX_PARSE_VALUE as int)),
        ) && f == o
    } else if fields.len() >= 5 && !field_ok(fields[4], MAX_PARSE_VALUE as int) {
        r == Err::<(), ParseStoryboardError>(
            ParseStoryboardError::Number(field_err(fields[4], MAX_PARSE_VALUE as int)),
        ) && f == o
    } else {
        let vol = if fields.len() >= 5 {
            crate::num::units_to_i32(field_units(fields[4]))
        } else {
            100
        };
        &&& r == Ok::<(), ParseStoryboardError>(())
        &&& placed(
            o.storyboard,
            f.storyboard,
            crate::layer::layer_name_of_field(fields[2]),
            clean_filename_spec(fields[3]),
            ElementKindInternal::Sample(
                StoryboardSample {
                    start_time: Num { units: field_units(fields[1]) as i128 },
                    volume: vol as i32,
                },
            ),
        )
        &&& same_but_storyboard(o, f)
    }
}

/// What a background event does: the third field becomes the background.
pub open spec fn background_effect(
    o: StoryboardState,
    f: StoryboardState,
    fields: Seq<Seq<u8>>,
    r: Result<(), ParseStoryboardError>,
) -> bool {
    if fields.len() < 3 {
        r == Err::<(), ParseStoryboardError>(ParseStoryboardError::InvalidLine) && f == o
    } else {
        &&& r == Ok::<(), ParseStoryboardError>(())
        &&& f.background_file@ == clean_filename_spec(fields[2])
        &&& same_but_background(o, f)
    }
}

/// What a break event does: a pause whose end is clamped up to its start.
pub open spec fn break_effect(
    o: StoryboardState,
    f: StoryboardState,
    fields: Seq<Seq<u8>>,
    r: Result<(), ParseStoryboardError>,
) -> bool {
    if fields.len() < 3 {
        r == Err::<(), ParseStoryboardError>(ParseStoryboardError::InvalidLine) && f == o
    } else if !field_ok(fields[1], MAX_PARSE_VALUE as int) {
        r == Err::<(), ParseStoryboardError>(
            ParseStoryboardError::Number(field_err(fields[1], MAX_PARSE_VALUE as int)),
        ) && f == o
    } else if !field_ok(fields[2], MAX_PARSE_VALUE as int) {
        r == Err::<(), ParseStoryboardError>(
            ParseStoryboardError::Number(field_err(fields[2], MAX_PARSE_VALUE as int)),
        ) && f == o
    } else {
        let st = field_units(fields[1]);
        let et = field_units(fields[2]);
        let end = if et >= st {
            et
        } else {
            st
        };
        &&& r == Ok::<(), ParseStoryboardError>(())
        &&& f.breaks@.len() == o.breaks@.len() + 1
        &&& f.breaks@.drop_last() == o.breaks@
        &&& f.breaks@.last() == BreakPeriod {
            start_time: Num { units: st as i128 },
            end_time: Num { units: end as i128 },
        }
        &&& f.format_version == o.format_version
        &&& f.use_skin_sprites == o.use_skin_sprites
        &&& f.background_file == o.background_file
        &&& f.storyboard == o.storyboard
        &&& f.sprite == o.sprite
        &&& f.timeline_group == o.timeline_group
        &&& f.variables == o.variables
        &&& f.arena == o.arena
    }
}

/// Lower one ASCII byte.
fn lower_exec(b: u8) -> (r: u8)
    ensures
        r == lc(b),
{
    if 65 <= b && b <= 90 {
        b + 32
    } else {
        b
    }
}


impl StoryboardState {
    /// Read a video event.
    pub fn parse_video(&mut self, fields: &Vec<Vec<u8>>) -> (r: Result<(), ParseStoryboardError>)
        requires
            old(self).inv(),
        ensures
            final(self).inv(),
            video_effect(*old(self), *final(self), field_views(fields@), r),
    {
        proof {
            assert(forall|i: int|
                0 <= i < fields@.len() ==> #[trigger] field_views(fields@)[i] == fields@[i]@);
        }
        if fields.len() < 3 {
            return Err(ParseStoryboardError::InvalidLine);
        }
        let off: i32 = match parse_i32(fields[1].as_slice()) {
            Ok(v) => v,
            Err(e) => {
                return Err(ParseStoryboardError::Number(e));
            },
        };
        let path = clean_filename(fields[2].as_slice());
        if path.len() < 3 {
            return Ok(());
        }
        let n = path.len();
        let a = lower_exec(path[n - 3]);
        let b = lower_exec(path[n - 2]);
        let c = lower_exec(path[n - 1]);
        let is_video = (a == 109 && b == 112 && c == 52) || (a == 109 && b == 111 && c == 118) || (
        a == 97 && b == 118 && c == 105) || (a == 102 && b == 108 && c == 118) || (a == 109 && b
            == 112 && c == 103) || (a == 119 && b == 109 && c == 118) || (a == 109 && b == 52 && c
            == 118);
        if is_video {
            let video = StoryboardVideo { start_time: Num::from_whole(off) };
            let ghost kind0 = ElementKindInternal::Video(video);
            place_element(
                &mut self.storyboard,
                "Video".as_bytes(),
                ElementInternal { path, kind: ElementKindInternal::Video(video) },
            );
            proof {
                lemma_placed_handles(
                    old(self).storyboard,
                    self.storyboard,
                    "Video".spec_bytes(),
                    clean_filename_spec(fields@[2]@),
                    kind0,
                    self.arena@.len() as int,
                );
            }
            Ok(())
        } else {
            self.background_file = path;
            Ok(())
        }
    }

    /// Read a sprite event into the pending slot.
    pub fn parse_sprite(&mut self, fields: &Vec<Vec<u8>>) -> (r: Result<(), ParseStoryboardError>)
        requires
            old(self).inv(),
        ensures
            final(self).inv(),
            sprite_effect(*old(self), *final(self), field_views(fields@), r),
    {
        proof {
            assert(forall|i: int|
                0 <= i < fields@.len() ==> #[trigger] field_views(fields@)[i] == fields@[i]@);
        }
        if fields.len() < 6 {
            return Err(ParseStoryboardError::InvalidLine);
        }
        let layer = crate::layer::StoryLayer::parse(fields[1].as_slice());
        let origin = crate::visual::Origins::parse(fields[2].as_slice());
        let path = clean_filename(fields[3].as_slice());
        let x: Num = match parse_num(fields[4].as_slice(), MAX_COORDINATE_VALUE) {
            Ok(v) => v,
            Err(e) => {
                return Err(ParseStoryboardError::Number(e));
            },
        };
        let y: Num = match parse_num(fields[5].as_slice(), MAX_COORDINATE_VALUE) {
            Ok(v) => v,
            Err(e) => {
                return Err(ParseStoryboardError::Number(e));
            },
        };
        let h = self.alloc_group();
        let sprite = StoryboardSpriteInternal {
            origin,
            initial_pos: Pos { x, y },
            timeline_group: h,
            loops: Vec::new(),
            triggers: Vec::new(),
        };
        if self.background_file.len() == 0 {
            self.background_file = crate::layer::slice_to_vec(path.as_slice());
        }
        self.sprite.set_sprite(path, &layer, sprite);
        Ok(())
    }

    /// Read an animation event into the pending slot.
    pub fn parse_animation(&mut self, fields: &Vec<Vec<u8>>) -> (r: Result<
        (),
        ParseStoryboardError,
    >)
        requires
            old(self).inv(),
        ensures
            final(self).inv(),
            animation_effect(*old(self), *final(self), field_views(fields@), r),
    {
        proof {
            assert(forall|i: int|
                0 <= i < fields@.len() ==> #[trigger] field_views(fields@)[i] == fields@[i]@);
        }
        if fields.len() < 8 {
            return Err(ParseStoryboardError::InvalidLine);
        }
        let layer = crate::layer::StoryLayer::parse(fields[1].as_slice());
        let origin = crate::visual::Origins::parse(fields[2].as_slice());
        let path = clean_filename(fields[3].as_slice());
        let x: Num = match parse_num(fields[4].as_slice(), MAX_COORDINATE_VALUE) {
            Ok(v) => v,
            Err(e) => {
                return Err(ParseStoryboardError::Number(e));
            },
        };
        let y: Num = match parse_num(fields[5].as_slice(), MAX_COORDINATE_VALUE) {
            Ok(v) => v,
            Err(e) => {
                return Err(ParseStoryboardError::Number(e));
            },
        };
        let frame_count: i32 = match parse_i32(fields[6].as_slice()) {
            Ok(v) => v,
            Err(e) => {
                return Err(ParseStoryboardError::Number(e));
            },
        };
        let mut frame_delay: Num = match parse_num(fields[7].as_slice(), MAX_PARSE_VALUE) {
            Ok(v) => v,
            Err(e) => {
                return Err(ParseStoryboardError::Number(e));
            },
        };
        if self.format_version < 6 {
            frame_delay = rescale_frame_delay(frame_delay);
        }
        let loop_kind: AnimationLoopType = if fields.len() >= 9 {
            AnimationLoopType::parse(fields[8].as_slice())
        } else {
            AnimationLoopType::LoopForever
        };
        let h = self.alloc_group();
        let animation = StoryboardAnimationInternal {
            sprite: StoryboardSpriteInternal {
                origin,
                initial_pos: Pos { x, y },
                timeline_group: h,
                loops: Vec::new(),
                triggers: Vec::new(),
            },
            frame_count,
            frame_delay,
            loop_kind,
        };
        self.sprite.set_animation(path, &layer, animation);
        Ok(())
    }

    /// Read a sample event.
    pub fn parse_sample(&mut self, fields: &Vec<Vec<u8>>) -> (r: Result<(), ParseStoryboardError>)
        requires
            old(self).inv(),
        ensures
            final(self).inv(),
            sample_effect(*old(self), *final(self), field_views(fields@), r),
    {
        proof {
            assert(forall|i: int|
                0 <= i < fields@.len() ==> #[trigger] field_views(fields@)[i] == fields@[i]@);
        }
        if fields.len() < 4 {
            return Err(ParseStoryboardError::InvalidLine);
        }
        let time: Num = match parse_num(fields[1].as_slice(), MAX_PARSE_VALUE) {
            Ok(v) => v,
            Err(e) => {
                return Err(ParseStoryboardError::Number(e));
            },
        };
        let layer = crate::layer::StoryLayer::parse(fields[2].as_slice());
        let path = clean_filename(fields[3].as_slice());
        let volume: i32 = if fields.len() >= 5 {
            match parse_num(fields[4].as_slice(), MAX_PARSE_VALUE) {
                Ok(v) => v.to_i32_trunc(),
                Err(e) => {
                    return Err(ParseStoryboardError::Number(e));
                },
            }
        } else {
            100
        };
        let sample = StoryboardSample { start_time: time, volume };
        let ghost kind0 = ElementKindInternal::Sample(sample);
        place_element(
            &mut self.storyboard,
            layer.as_str().as_slice(),
            ElementInternal { path, kind: ElementKindInternal::Sample(sample) },
        );
        proof {
            lemma_placed_handles(
                old(self).storyboard,
                self.storyboard,
                layer.name@,
                clean_filename_spec(fields@[3]@),
                kind0,
                self.arena@.len() as int,
            );
        }
        Ok(())
    }

    /// Read a background event.
    pub fn parse_background(&mut self, fields: &Vec<Vec<u8>>) -> (r: Result<
        (),
        ParseStoryboardError,
    >)
        requires
            old(self).inv(),
        ensures
            final(self).inv(),
            background_effect(*old(self), *final(self), field_views(fields@), r),
    {
        proof {
            assert(forall|i: int|
                0 <= i < fields@.len() ==> #[trigger] field_views(fields@)[i] == fields@[i]@);
        }
        if fields.len() < 3 {
            return Err(ParseStoryboardError::InvalidLine);
        }
        self.background_file = clean_filename(fields[2].as_slice());
        Ok(())
    }

    /// Read a break event.
    pub fn parse_break(&mut self, fields: &Vec<Vec<u8>>) -> (r: Result<(), ParseStoryboardError>)
        requires
            old(self).inv(),
        ensures
            final(self).inv(),
            break_effect(*old(self), *final(self), field_views(fields@), r),
    {
        proof {
            assert(forall|i: int|
                0 <= i < fields@.len() ==> #[trigger] field_views(fields@)[i] == fields@[i]@);
        }
        if fields.len() < 3 {
            return Err(ParseStoryboardError::InvalidLine);
        }
        let st: Num = match parse_num(fields[1].as_slice(), MAX_PARSE_VALUE) {
            Ok(v) => v,
            Err(e) => {
                return Err(ParseStoryboardError::Number(e));
            },
        };
        let et: Num = match parse_num(fields[2].as_slice(), MAX_PARSE_VALUE) {
            Ok(v) => v,
            Err(e) => {
                return Err(ParseStoryboardError::Number(e));
            },
        };
        let end: Num = st.max(et);
        self.breaks.push(BreakPeriod { start_time: st, end_time: end });
        proof {
            assert(self.breaks@.drop_last() =~= old(self).breaks@);
        }
        Ok(())
    }
}


/// Placing an element whose handles are in range keeps every stored handle
/// in range.
/// One appended element with in-range handles keeps a list's handles in
/// range.
proof fn lemma_elems_handles(
    olde: Seq<ElementInternal>,
    newe: Seq<ElementInternal>,
    kind: ElementKindInternal,
    n: int,
)
    requires
        newe.len() == olde.len() + 1,
        newe.drop_last() == olde,
        newe.last().kind == kind,
        kind.handles_ok(n),
        elems_handles_ok(olde, n),
    ensures
        elems_handles_ok(newe, n),
{
    assert forall|j: int| 0 <= j < newe.len() implies (#[trigger] newe[j]).kind.handles_ok(
        n,
    ) by {
        if j < olde.len() {
            assert(newe.drop_last()[j] == newe[j]);
            assert(olde[j].kind.handles_ok(n));
        }
    }
}

/// Placing an element whose handles are in range keeps every stored handle
/// in range.
#[verifier::rlimit(100)]
pub proof fn lemma_placed_handles(
    old_sb: StoryboardInternal,
    new_sb: StoryboardInternal,
    name: Seq<u8>,
    path: Seq<u8>,
    kind: ElementKindInternal,
    n: int,
)
    requires
        placed(old_sb, new_sb, name, path, kind),
        old_sb.handles_ok(n),
        kind.handles_ok(n),
    ensures
        new_sb.handles_ok(n),
{
    reveal(placed);
    let lo = old_sb.layers@;
    let ln = new_sb.layers@;
    if exists|r: int| #[trigger] placed_at(old_sb, new_sb, name, path, kind, r) {
        let r = choose|r: int| #[trigger] placed_at(old_sb, new_sb, name, path, kind, r);
        lemma_elems_handles(lo[r].elements@, ln[r].elements@, kind, n);
        assert forall|i: int| 0 <= i < ln.len() implies elems_handles_ok(
            (#[trigger] ln[i]).elements@,
            n,
        ) by {
            if i != r {
                assert(ln[i] == lo[i]);
                assert(elems_handles_ok(lo[i].elements@, n));
            }
        }
    } else {
        assert forall|i: int| 0 <= i < ln.len() implies elems_handles_ok(
            (#[trigger] ln[i]).elements@,
            n,
        ) by {
            if i < lo.len() {
                assert(ln[i] == lo[i]);
                assert(elems_handles_ok(lo[i].elements@, n));
            } else {
                let es = ln[i].elements@;
                assert forall|j: int| 0 <= j < es.len() implies (#[trigger] es[
                    j
                ]).kind.handles_ok(n) by {
                    assert(es[j].kind == kind);
                }
            }
        }
    }
}

/// Stitch a replacement into a line.
fn splice(s: &[u8], i: usize, klen: usize, val: &[u8]) -> (r: Vec<u8>)
    requires
        i + klen <= s@.len(),
    ensures
        r@ == s@.take(i as int) + val@ + s@.skip(i + klen),
{
    let n = s.len();
    let mut out = subrange_vec(s, 0, i);
    out.extend_from_slice(val);
    let mut tail = subrange_vec(s, i + klen, n);
    out.append(&mut tail);
    proof {
        assert(s@.subrange(0, i as int) =~= s@.take(i as int));
        assert(s@.subrange(i + klen, s@.len() as int) =~= s@.skip(i + klen));
        assert(out@ =~= s@.take(i as int) + val@ + s@.skip(i + klen));
    }
    out
}

/// What one general-section line does: only the skin-sprites switch is read.
pub open spec fn general_line_effect(o: StoryboardState, f: StoryboardState, line: Seq<u8>) -> bool {
    let parts = crate::text::split_at_byte(trim_comment_spec(line), 58);
    if crate::num::trim_spec(parts[0]) == "UseSkinSprites".spec_bytes() {
        &&& f.use_skin_sprites == (parts.len() >= 2 && crate::num::trim_spec(parts[1])
            == "1".spec_bytes())
        &&& f.format_version == o.format_version
        &&& f.background_file == o.background_file
        &&& f.breaks == o.breaks
        &&& f.storyboard == o.storyboard
        &&& f.sprite == o.sprite
        &&& f.timeline_group == o.timeline_group
        &&& f.variables == o.variables
        &&& f.arena == o.arena
    } else {
        f == o
    }
}

/// What one variables-section line does: a definition updates the first
/// entry with its key or appends a fresh one; without an equals sign the
/// whole line is a key with an empty value.
pub open spec fn variables_line_effect(o: StoryboardState, f: StoryboardState, line: Seq<u8>) -> bool {
    let fm = first_match(line, seq![61u8]);
    let key = if fm >= 0 {
        line.take(fm)
    } else {
        line
    };
    let value = if fm >= 0 {
        line.skip(fm + 1)
    } else {
        Seq::<u8>::empty()
    };
    &&& f.format_version == o.format_version
    &&& f.use_skin_sprites == o.use_skin_sprites
    &&& f.background_file == o.background_file
    &&& f.breaks == o.breaks
    &&& f.storyboard == o.storyboard
    &&& f.sprite == o.sprite
    &&& f.timeline_group == o.timeline_group
    &&& f.arena == o.arena
    &&& if exists|i: int|
        0 <= i < o.variables@.len() && (#[trigger] o.variables@[i].0)@ == key {
        let i = choose|i: int|
            0 <= i < o.variables@.len() && (#[trigger] o.variables@[i].0)@ == key && forall|
                j: int,
            | 0 <= j < i ==> (#[trigger] o.variables@[j].0)@ != key;
        &&& f.variables@.len() == o.variables@.len()
        &&& forall|j: int|
            0 <= j < o.variables@.len() && j != i ==> #[trigger] f.variables@[j]
                == o.variables@[j]
        &&& f.variables@[i].0 == o.variables@[i].0
        &&& f.variables@[i].1@ == value
    } else {
        &&& f.variables@.len() == o.variables@.len() + 1
        &&& f.variables@.drop_last() == o.variables@
        &&& f.variables@.last().0@ == key
        &&& f.variables@.last().1@ == value
    }
}

impl StoryboardState {
    /// Rewrite a line by the variable table until no variable matches, the
    /// line holds no marker, or the pass allowance runs out. Only a chain
    /// of changing passes as long as the allowance can return an unsettled
    /// line; the original risks looping forever on such tables instead.
    pub fn decode_variables(&self, line: &[u8]) -> (r: Vec<u8>)
        ensures
            r@ == subst_full(line@, vars_view(self.variables@), SUBST_PASS_LIMIT as nat),
            subst_hits_cap(line@, vars_view(self.variables@), SUBST_PASS_LIMIT as nat)
                || subst_done(r@, vars_view(self.variables@)),
    {
        let ghost vv = vars_view(self.variables@);
        let mut cur: Vec<u8> = crate::layer::slice_to_vec(line);
        let mut fuel: u64 = SUBST_PASS_LIMIT;
        loop
            invariant
                vv == vars_view(self.variables@),
                subst_full(cur@, vv, fuel as nat) == subst_full(
                    line@,
                    vv,
                    SUBST_PASS_LIMIT as nat,
                ),
            decreases fuel,
        {
            if fuel == 0 {
                proof {
                    lemma_subst_full_done(line@, vv, SUBST_PASS_LIMIT as nat);
                }
                return cur;
            }
            match crate::text::find_first(cur.as_slice(), "$".as_bytes()) {
                None => {
                    proof {
                        lemma_subst_full_done(line@, vv, SUBST_PASS_LIMIT as nat);
                    }
                    return cur;
                },
                Some(_) => {},
            }
            let ghost pass_start = cur@;
            let mut changed: bool = false;
            let n = self.variables.len();
            let mut k: usize = 0;
            while k < n
                invariant
                    n == self.variables@.len(),
                    vv == vars_view(self.variables@),
                    vv.len() == n,
                    0 <= k <= n,
                    subst_pass(pass_start, vv, 0).0 == subst_pass(cur@, vv, k as int).0,
                    subst_pass(pass_start, vv, 0).1 == (changed || subst_pass(
                        cur@,
                        vv,
                        k as int,
                    ).1),
                decreases n - k,
            {
                let pair = &self.variables[k];
                proof {
                    assert(vv[k as int] == (self.variables@[k as int].0@, self.variables@[
                        k as int
                    ].1@));
                }
                match crate::text::find_first(cur.as_slice(), pair.0.as_slice()) {
                    Some(i) => {
                        let next = splice(cur.as_slice(), i, pair.0.len(), pair.1.as_slice());
                        proof {
                            assert(subst_one(cur@, vv[k as int].0, vv[k as int].1).0 =~= next@);
                        }
                        cur = next;
                        changed = true;
                    },
                    None => {},
                }
                k = k + 1;
            }
            proof {
                assert(subst_pass(cur@, vv, n as int).0 == cur@);
                assert(subst_pass(cur@, vv, n as int).1 == false);
            }
            if !changed {
                proof {
                    lemma_subst_full_done(line@, vv, SUBST_PASS_LIMIT as nat);
                }
                return cur;
            }
            fuel = fuel - 1;
        }
    }

    /// Read a line of the general section: only the skin-sprites switch is
    /// of interest.
    pub fn parse_general(&mut self, line: &[u8]) -> (r: Result<(), ParseStoryboardError>)
        requires
            old(self).inv(),
        ensures
            final(self).inv(),
            r == Ok::<(), ParseStoryboardError>(()),
            general_line_effect(*old(self), *final(self), line@),
    {
        let trimmed = trim_comment(line);
        let parts = crate::text::split_bytes(trimmed.as_slice(), 58);
        let p0 = crate::num::trim_ascii(parts[0].as_slice());
        if crate::text::bytes_eq(p0.as_slice(), "UseSkinSprites".as_bytes()) {
            let on: bool = if parts.len() >= 2 {
                let p1 = crate::num::trim_ascii(parts[1].as_slice());
                crate::text::bytes_eq(p1.as_slice(), "1".as_bytes())
            } else {
                false
            };
            self.use_skin_sprites = on;
        }
        Ok(())
    }

    /// Read a line of the variables section: a definition updates the first
    /// entry with its key or appends a fresh one; a line without a sign
    /// defines an empty value.
    pub fn parse_variables(&mut self, line: &[u8]) -> (r: Result<(), ParseStoryboardError>)
        requires
            old(self).inv(),
        ensures
            final(self).inv(),
            r == Ok::<(), ParseStoryboardError>(()),
            variables_line_effect(*old(self), *final(self), line@),
    {
        let eq_pat: [u8; 1] = [61];
        proof {
            assert(eq_pat@ =~= seq![61u8]);
        }
        let llen = line.len();
        let (key, value): (Vec<u8>, Vec<u8>) = match crate::text::find_first(
            line,
            eq_pat.as_slice(),
        ) {
            Some(i) => (subrange_vec(line, 0, i), subrange_vec(line, i + 1, llen)),
            None => (crate::layer::slice_to_vec(line), Vec::new()),
        };
        proof {
            let fm = first_match(line@, seq![61u8]);
            if fm >= 0 {
                assert(line@.subrange(0, fm) =~= line@.take(fm));
                assert(line@.subrange(fm + 1, line@.len() as int) =~= line@.skip(fm + 1));
            }
        }
        let n = self.variables.len();
        let mut k: usize = 0;
        while k < n
            invariant
                n == self.variables@.len(),
                0 <= k <= n,
                *self == *old(self),
                old(self).inv(),
                key@ == ({
                    let fm = first_match(line@, seq![61u8]);
                    if fm >= 0 {
                        line@.take(fm)
                    } else {
                        line@
                    }
                }),
                value@ == ({
                    let fm = first_match(line@, seq![61u8]);
                    if fm >= 0 {
                        line@.skip(fm + 1)
                    } else {
                        Seq::<u8>::empty()
                    }
                }),
                forall|j: int| 0 <= j < k ==> (#[trigger] self.variables@[j].0)@ != key@,
            decreases n - k,
        {
            if crate::text::bytes_eq(self.variables[k].0.as_slice(), key.as_slice()) {
                let p = &mut self.variables[k];
                p.1 = value;
                proof {
                    assert(self.arena == old(self).arena);
                    assert(self.storyboard == old(self).storyboard);
                    assert(self.sprite == old(self).sprite);
                    assert(self.breaks == old(self).breaks);
                    assert(self.timeline_group == old(self).timeline_group);
                    assert(old(self).inv());
                    assert(self.inv());
                }
                return Ok(());
            }
            k = k + 1;
        }
        self.variables.push((key, value));
        proof {
            assert(self.variables@.drop_last() =~= old(self).variables@);
        }
        Ok(())
    }

    /// The fresh decoder state for a declared format version: the six
    /// well-known layers, nothing pending, no target, no variables.
    pub fn create(format_version: i32) -> (r: StoryboardState)
        ensures
            r.inv(),
            init_state_rel(format_version as int, r),
    {
        let mut layers: Vec<LayerInternal> = Vec::new();
        layers.push(
            LayerInternal {
                name: crate::layer::slice_to_vec("Video".as_bytes()),
                depth: 4,
                masking: false,
                visible_when_passing: true,
                visible_when_failing: true,
                elements: Vec::new(),
            },
        );
        layers.push(
            LayerInternal {
                name: crate::layer::slice_to_vec("Background".as_bytes()),
                depth: 3,
                masking: true,
                visible_when_passing: true,
                visible_when_failing: true,
                elements: Vec::new(),
            },
        );
        layers.push(
            LayerInternal {
                name: crate::layer::slice_to_vec("Fail".as_bytes()),
                depth: 2,
                masking: true,
                visible_when_passing: false,
                visible_when_failing: true,
                elements: Vec::new(),
            },
        );
        layers.push(
            LayerInternal {
                name: crate::layer::slice_to_vec("Pass".as_bytes()),
                depth: 1,
                masking: true,
                visible_when_passing: true,
                visible_when_failing: false,
                elements: Vec::new(),
            },
        );
        layers.push(
            LayerInternal {
                name: crate::layer::slice_to_vec("Foreground".as_bytes()),
                depth: 0,
                masking: true,
                visible_when_passing: true,
                visible_when_failing: true,
                elements: Vec::new(),
            },
        );
        layers.push(
            LayerInternal {
                name: crate::layer::slice_to_vec("Overlay".as_bytes()),
                depth: i32::MIN,
                masking: true,
                visible_when_passing: true,
                visible_when_failing: true,
                elements: Vec::new(),
            },
        );
        StoryboardState {
            format_version,
            use_skin_sprites: false,
            background_file: Vec::new(),
            breaks: Vec::new(),
            storyboard: StoryboardInternal { layers, min_layer_depth: 0 },
            sprite: PendingSprite::new(),
            timeline_group: None,
            variables: Vec::new(),
            arena: Vec::new(),
        }
    }
}

/// A fresh decoder state for a declared format version: the six well-known
/// layers, nothing pending, no target, no variables.
pub open spec fn init_state_rel(format_version: int, r: StoryboardState) -> bool {
    &&& r.format_version as int == format_version
    &&& !r.use_skin_sprites
    &&& r.background_file@.len() == 0
    &&& r.breaks@.len() == 0
    &&& r.sprite.0 is None
    &&& r.timeline_group is None
    &&& r.variables@.len() == 0
    &&& r.arena@.len() == 0
    &&& r.storyboard.min_layer_depth == 0
    &&& default_layers_internal(r.storyboard.layers@)
}

/// The six well-known layers in creation order, empty and with their
/// default flags.
pub open spec fn default_layers_internal(layers: Seq<LayerInternal>) -> bool {
    &&& layers.len() == 6
    &&& layers[0].name@ == "Video".spec_bytes() && layers[0].depth == 4 && !layers[0].masking
        && layers[0].visible_when_passing && layers[0].visible_when_failing && layers[
        0
    ].elements@.len() == 0
    &&& layers[1].name@ == "Background".spec_bytes() && layers[1].depth == 3 && layers[1].masking
        && layers[1].visible_when_passing && layers[1].visible_when_failing && layers[
        1
    ].elements@.len() == 0
    &&& layers[2].name@ == "Fail".spec_bytes() && layers[2].depth == 2 && layers[2].masking
        && !layers[2].visible_when_passing && layers[2].visible_when_failing && layers[
        2
    ].elements@.len() == 0
    &&& layers[3].name@ == "Pass".spec_bytes() && layers[3].depth == 1 && layers[3].masking
        && layers[3].visible_when_passing && !layers[3].visible_when_failing && layers[
        3
    ].elements@.len() == 0
    &&& layers[4].name@ == "Foreground".spec_bytes() && layers[4].depth == 0 && layers[4].masking
        && layers[4].visible_when_passing && layers[4].visible_when_failing && layers[
        4
    ].elements@.len() == 0
    &&& layers[5].name@ == "Overlay".spec_bytes() && layers[5].depth == i32::MIN && layers[
        5
    ].masking && layers[5].visible_when_passing && layers[5].visible_when_failing && layers[
        5
    ].elements@.len() == 0
}


/// What a fade command does, once the easing and times are read.
pub open spec fn alpha_effect(
    o: StoryboardState,
    f: StoryboardState,
    fields: Seq<Seq<u8>>,
    easing: Easing,
    start_time: Num,
    end_time: Num,
    r: Result<(), ParseStoryboardError>,
) -> bool {
    if fields.len() < 5 {
        r == Err::<(), ParseStoryboardError>(ParseStoryboardError::InvalidLine) && f == o
    } else if o.timeline_group is None {
        r == Ok::<(), ParseStoryboardError>(()) && f == o
    } else {
        let h = o.timeline_group.unwrap() as int;
        let has_ev = fields.len() >= 6;
        if !field_ok(fields[4], MAX_PARSE_VALUE as int) {
            r == Err::<(), ParseStoryboardError>(
                ParseStoryboardError::Number(field_err(fields[4], MAX_PARSE_VALUE as int)),
            ) && f == o
        } else if has_ev && !field_ok(fields[5], MAX_PARSE_VALUE as int) {
            r == Err::<(), ParseStoryboardError>(
                ParseStoryboardError::Number(field_err(fields[5], MAX_PARSE_VALUE as int)),
            ) && f == o
        } else {
            let sv = field_units(fields[4]);
            let ev = if has_ev {
                field_units(fields[5])
            } else {
                sv
            };
            &&& r == Ok::<(), ParseStoryboardError>(())
            &&& f.same_surroundings(o)
            &&& f.arena_updated_at(o, h)
            &&& added_alpha(
                o.arena@[h],
                f.arena@[h],
                easing,
                start_time,
                end_time,
                Num { units: sv as i128 },
                Num { units: ev as i128 },
            )
        }
    }
}

/// What a scale command does, once the easing and times are read.
pub open spec fn scale_effect(
    o: StoryboardState,
    f: StoryboardState,
    fields: Seq<Seq<u8>>,
    easing: Easing,
    start_time: Num,
    end_time: Num,
    r: Result<(), ParseStoryboardError>,
) -> bool {
    if fields.len() < 5 {
        r == Err::<(), ParseStoryboardError>(ParseStoryboardError::InvalidLine) && f == o
    } else if o.timeline_group is None {
        r == Ok::<(), ParseStoryboardError>(()) && f == o
    } else {
        let h = o.timeline_group.unwrap() as int;
        let has_ev = fields.len() >= 6;
        if !field_ok(fields[4], MAX_PARSE_VALUE as int) {
            r == Err::<(), ParseStoryboardError>(
                ParseStoryboardError::Number(field_err(fields[4], MAX_PARSE_VALUE as int)),
            ) && f == o
        } else if has_ev && !field_ok(fields[5], MAX_PARSE_VALUE as int) {
            r == Err::<(), ParseStoryboardError>(
                ParseStoryboardError::Number(field_err(fields[5], MAX_PARSE_VALUE as int)),
            ) && f == o
        } else {
            let sv = field_units(fields[4]);
            let ev = if has_ev {
                field_units(fields[5])
            } else {
                sv
            };
            &&& r == Ok::<(), ParseStoryboardError>(())
            &&& f.same_surroundings(o)
            &&& f.arena_updated_at(o, h)
            &&& added_scale(
                o.arena@[h],
                f.arena@[h],
                easing,
                start_time,
                end_time,
                Num { units: sv as i128 },
                Num { units: ev as i128 },
            )
        }
    }
}

/// What a rotation command does, once the easing and times are read.
pub open spec fn rotation_effect(
    o: StoryboardState,
    f: StoryboardState,
    fields: Seq<Seq<u8>>,
    easing: Easing,
    start_time: Num,
    end_time: Num,
    r: Result<(), ParseStoryboardError>,
) -> bool {
    if fields.len() < 5 {
        r == Err::<(), ParseStoryboardError>(ParseStoryboardError::InvalidLine) && f == o
    } else if o.timeline_group is None {
        r == Ok::<(), ParseStoryboardError>(()) && f == o
    } else {
        let h = o.timeline_group.unwrap() as int;
        let has_ev = fields.len() >= 6;
        if !field_ok(fields[4], MAX_PARSE_VALUE as int) {
            r == Err::<(), ParseStoryboardError>(
                ParseStoryboardError::Number(field_err(fields[4], MAX_PARSE_VALUE as int)),
            ) && f == o
        } else if has_ev && !field_ok(fields[5], MAX_PARSE_VALUE as int) {
            r == Err::<(), ParseStoryboardError>(
                ParseStoryboardError::Number(field_err(fields[5], MAX_PARSE_VALUE as int)),
            ) && f == o
        } else {
            let sv = field_units(fields[4]);
            let ev = if has_ev {
                field_units(fields[5])
            } else {
                sv
            };
            &&& r == Ok::<(), ParseStoryboardError>(())
            &&& f.same_surroundings(o)
            &&& f.arena_updated_at(o, h)
            &&& added_rotation(
                o.arena@[h],
                f.arena@[h],
                easing,
                start_time,
                end_time,
                Num { units: sv as i128 },
                Num { units: ev as i128 },
            )
        }
    }
}

/// What a horizontal move command does, once the easing and times are read.
pub open spec fn x_effect(
    o: StoryboardState,
    f: StoryboardState,
    fields: Seq<Seq<u8>>,
    easing: Easing,
    start_time: Num,
    end_time: Num,
    r: Result<(), ParseStoryboardError>,
) -> bool {
    if fields.len() < 5 {
        r == Err::<(), ParseStoryboardError>(ParseStoryboardError::InvalidLine) && f == o
    } else if o.timeline_group is None {
        r == Ok::<(), ParseStoryboardError>(()) && f == o
    } else {
        let h = o.timeline_group.unwrap() as int;
        let has_ev = fields.len() >= 6;
        if !field_ok(fields[4], MAX_PARSE_VALUE as int) {
            r == Err::<(), ParseStoryboardError>(
                ParseStoryboardError::Number(field_err(fields[4], MAX_PARSE_VALUE as int)),
            ) && f == o
        } else if has_ev && !field_ok(fields[5], MAX_PARSE_VALUE as int) {
            r == Err::<(), ParseStoryboardError>(
                ParseStoryboardError::Number(field_err(fields[5], MAX_PARSE_VALUE as int)),
            ) && f == o
        } else {
            let sv = field_units(fields[4]);
            let ev = if has_ev {
                field_units(fields[5])
            } else {
                sv
            };
            &&& r == Ok::<(), ParseStoryboardError>(())
            &&& f.same_surroundings(o)
            &&& f.arena_updated_at(o, h)
            &&& added_x(
                o.arena@[h],
                f.arena@[h],
                easing,
                start_time,
                end_time,
                Num { units: sv as i128 },
                Num { units: ev as i128 },
            )
        }
    }
}

/// What a vertical move command does, once the easing and times are read.
pub open spec fn y_effect(
    o: StoryboardState,
    f: StoryboardState,
    fields: Seq<Seq<u8>>,
    easing: Easing,
    start_time: Num,
    end_time: Num,
    r: Result<(), ParseStoryboardError>,
) -> bool {
    if fields.len() < 5 {
        r == Err::<(), ParseStoryboardError>(ParseStoryboardError::InvalidLine) && f == o
    } else if o.timeline_group is None {
        r == Ok::<(), ParseStoryboardError>(()) && f == o
    } else {
        let h = o.timeline_group.unwrap() as int;
        let has_ev = fields.len() >= 6;
        if !field_ok(fields[4], MAX_PARSE_VALUE as int) {
            r == Err::<(), ParseStoryboardError>(
                ParseStoryboardError::Number(field_err(fields[4], MAX_PARSE_VALUE as int)),
            ) && f == o
        } else if has_ev && !field_ok(fields[5], MAX_PARSE_VALUE as int) {
            r == Err::<(), ParseStoryboardError>(
                ParseStoryboardError::Number(field_err(fields[5], MAX_PARSE_VALUE as int)),
            ) && f == o
        } else {
            let sv = field_units(fields[4]);
            let ev = if has_ev {
                field_units(fields[5])
            } else {
                sv
            };
            &&& r == Ok::<(), ParseStoryboardError>(())
            &&& f.same_surroundings(o)
            &&& f.arena_updated_at(o, h)
            &&& added_y(
                o.arena@[h],
                f.arena@[h],
                easing,
                start_time,
                end_time,
                Num { units: sv as i128 },
                Num { units: ev as i128 },
            )
        }
    }
}

/// What a move command does, once the easing and times are read.
pub open spec fn pos_effect(
    o: StoryboardState,
    f: StoryboardState,
    fields: Seq<Seq<u8>>,
    easing: Easing,
    start_time: Num,
    end_time: Num,
    r: Result<(), ParseStoryboardError>,
) -> bool {
    if fields.len() < 6 {
        r == Err::<(), ParseStoryboardError>(ParseStoryboardError::InvalidLine) && f == o
    } else if o.timeline_group is None {
        r == Ok::<(), ParseStoryboardError>(()) && f == o
    } else {
        let h = o.timeline_group.unwrap() as int;
        if !field_ok(fields[4], MAX_PARSE_VALUE as int) {
            r == Err::<(), ParseStoryboardError>(
                ParseStoryboardError::Number(field_err(fields[4], MAX_PARSE_VALUE as int)),
            ) && f == o
        } else if !field_ok(fields[5], MAX_PARSE_VALUE as int) {
            r == Err::<(), ParseStoryboardError>(
                ParseStoryboardError::Number(field_err(fields[5], MAX_PARSE_VALUE as int)),
            ) && f == o
        } else if fields.len() >= 7 && !field_ok(fields[6], MAX_PARSE_VALUE as int) {
            r == Err::<(), ParseStoryboardError>(
                ParseStoryboardError::Number(field_err(fields[6], MAX_PARSE_VALUE as int)),
            ) && f == o
        } else if fields.len() >= 8 && !field_ok(fields[7], MAX_PARSE_VALUE as int) {
            r == Err::<(), ParseStoryboardError>(
                ParseStoryboardError::Number(field_err(fields[7], MAX_PARSE_VALUE as int)),
            ) && f == o
        } else {
            let sx = field_units(fields[4]);
            let sy = field_units(fields[5]);
            let ex = if fields.len() >= 7 {
                field_units(fields[6])
            } else {
                sx
            };
            let ey = if fields.len() >= 8 {
                field_units(fields[7])
            } else {
                sy
            };
            &&& r == Ok::<(), ParseStoryboardError>(())
            &&& f.same_surroundings(o)
            &&& f.arena_updated_at(o, h)
            &&& added_pos(
                o.arena@[h],
                f.arena@[h],
                easing,
                start_time,
                end_time,
                Num { units: sx as i128 },
                Num { units: sy as i128 },
                Num { units: ex as i128 },
                Num { units: ey as i128 },
            )
        }
    }
}

/// What a vector-scale command does, once the easing and times are read.
pub open spec fn vector_scale_effect(
    o: StoryboardState,
    f: StoryboardState,
    fields: Seq<Seq<u8>>,
    easing: Easing,
    start_time: Num,
    end_time: Num,
    r: Result<(), ParseStoryboardError>,
) -> bool {
    if fields.len() < 6 {
        r == Err::<(), ParseStoryboardError>(ParseStoryboardError::InvalidLine) && f == o
    } else if o.timeline_group is None {
        r == Ok::<(), ParseStoryboardError>(()) && f == o
    } else {
        let h = o.timeline_group.unwrap() as int;
        if !field_ok(fields[4], MAX_PARSE_VALUE as int) {
            r == Err::<(), ParseStoryboardError>(
                ParseStoryboardError::Number(field_err(fields[4], MAX_PARSE_VALUE as int)),
            ) && f == o
        } else if !field_ok(fields[5], MAX_PARSE_VALUE as int) {
            r == Err::<(), ParseStoryboardError>(
                ParseStoryboardError::Number(field_err(fields[5], MAX_PARSE_VALUE as int)),
            ) && f == o
        } else if fields.len() >= 7 && !field_ok(fields[6], MAX_PARSE_VALUE as int) {
            r == Err::<(), ParseStoryboardError>(
                ParseStoryboardError::Number(field_err(fields[6], MAX_PARSE_VALUE as int)),
            ) && f == o
        } else if fields.len() >= 8 && !field_ok(fields[7], MAX_PARSE_VALUE as int) {
            r == Err::<(), ParseStoryboardError>(
                ParseStoryboardError::Number(field_err(fields[7], MAX_PARSE_VALUE as int)),
            ) && f == o
        } else {
            let sx = field_units(fields[4]);
            let sy = field_units(fields[5]);
            let ex = if fields.len() >= 7 {
                field_units(fields[6])
            } else {
                sx
            };
            let ey = if fields.len() >= 8 {
                field_units(fields[7])
            } else {
                sy
            };
            &&& r == Ok::<(), ParseStoryboardError>(())
            &&& f.same_surroundings(o)
            &&& f.arena_updated_at(o, h)
            &&& added_vector_scale(
                o.arena@[h],
                f.arena@[h],
                easing,
                start_time,
                end_time,
                Pos { x: Num { units: sx as i128 }, y: Num { units: sy as i128 } },
                Pos { x: Num { units: ex as i128 }, y: Num { units: ey as i128 } },
            )
        }
    }
}

/// What a colour command does, once the easing and times are read.
pub open spec fn color_effect(
    o: StoryboardState,
    f: StoryboardState,
    fields: Seq<Seq<u8>>,
    easing: Easing,
    start_time: Num,
    end_time: Num,
    r: Result<(), ParseStoryboardError>,
) -> bool {
    if fields.len() < 7 {
        r == Err::<(), ParseStoryboardError>(ParseStoryboardError::InvalidLine) && f == o
    } else if o.timeline_group is None {
        r == Ok::<(), ParseStoryboardError>(()) && f == o
    } else {
        let h = o.timeline_group.unwrap() as int;
        if !field_ok(fields[4], MAX_PARSE_VALUE as int) {
            r == Err::<(), ParseStoryboardError>(
                ParseStoryboardError::Number(field_err(fields[4], MAX_PARSE_VALUE as int)),
            ) && f == o
        } else if !field_ok(fields[5], MAX_PARSE_VALUE as int) {
            r == Err::<(), ParseStoryboardError>(
                ParseStoryboardError::Number(field_err(fields[5], MAX_PARSE_VALUE as int)),
            ) && f == o
        } else if !field_ok(fields[6], MAX_PARSE_VALUE as int) {
            r == Err::<(), ParseStoryboardError>(
                ParseStoryboardError::Number(field_err(fields[6], MAX_PARSE_VALUE as int)),
            ) && f == o
        } else if fields.len() >= 8 && !field_ok(fields[7], MAX_PARSE_VALUE as int) {
            r == Err::<(), ParseStoryboardError>(
                ParseStoryboardError::Number(field_err(fields[7], MAX_PARSE_VALUE as int)),
            ) && f == o
        } else if fields.len() >= 9 && !field_ok(fields[8], MAX_PARSE_VALUE as int) {
            r == Err::<(), ParseStoryboardError>(
                ParseStoryboardError::Number(field_err(fields[8], MAX_PARSE_VALUE as int)),
            ) && f == o
        } else if fields.len() >= 10 && !field_ok(fields[9], MAX_PARSE_VALUE as int) {
            r == Err::<(), ParseStoryboardError>(
                ParseStoryboardError::Number(field_err(fields[9], MAX_PARSE_VALUE as int)),
            ) && f == o
        } else {
            let sr = field_units(fields[4]);
            let sg = field_units(fields[5]);
            let sb = field_units(fields[6]);
            let er = if fields.len() >= 8 {
                field_units(fields[7])
            } else {
                sr
            };
            let eg = if fields.len() >= 9 {
                field_units(fields[8])
            } else {
                sg
            };
            let eb = if fields.len() >= 10 {
                field_units(fields[9])
            } else {
                sb
            };
            &&& r == Ok::<(), ParseStoryboardError>(())
            &&& f.same_surroundings(o)
            &&& f.arena_updated_at(o, h)
            &&& added_color(
                o.arena@[h],
                f.arena@[h],
                easing,
                start_time,
                end_time,
                crate::visual::Color {
                    red: crate::num::units_to_u8(sr) as u8,
                    green: crate::num::units_to_u8(sg) as u8,
                    blue: crate::num::units_to_u8(sb) as u8,
                    alpha: 255,
                },
                crate::visual::Color {
                    red: crate::num::units_to_u8(er) as u8,
                    green: crate::num::units_to_u8(eg) as u8,
                    blue: crate::num::units_to_u8(eb) as u8,
                    alpha: 255,
                },
            )
        }
    }
}

/// What a parameter command does for a given sub-kind.
pub open spec fn parameter_effect(
    o: StoryboardState,
    f: StoryboardState,
    fields: Seq<Seq<u8>>,
    easing: Easing,
    start_time: Num,
    end_time: Num,
    r: Result<(), ParseStoryboardError>,
) -> bool {
    if fields.len() < 5 {
        r == Err::<(), ParseStoryboardError>(ParseStoryboardError::InvalidLine) && f == o
    } else if o.timeline_group is None {
        r == Ok::<(), ParseStoryboardError>(()) && f == o
    } else {
        let h = o.timeline_group.unwrap() as int;
        &&& r == Ok::<(), ParseStoryboardError>(())
        &&& if fields[4] == "A".spec_bytes() {
            f.same_surroundings(o) && f.arena_updated_at(o, h) && added_blending(
                o.arena@[h],
                f.arena@[h],
                easing,
                start_time,
                end_time,
            )
        } else if fields[4] == "H".spec_bytes() {
            f.same_surroundings(o) && f.arena_updated_at(o, h) && added_flip_h(
                o.arena@[h],
                f.arena@[h],
                easing,
                start_time,
                end_time,
            )
        } else if fields[4] == "V".spec_bytes() {
            f.same_surroundings(o) && f.arena_updated_at(o, h) && added_flip_v(
                o.arena@[h],
                f.arena@[h],
                easing,
                start_time,
                end_time,
            )
        } else {
            f == o
        }
    }
}

/// What a loop header does.
pub open spec fn loop_effect(
    o: StoryboardState,
    f: StoryboardState,
    fields: Seq<Seq<u8>>,
    r: Result<(), ParseStoryboardError>,
) -> bool {
    if fields.len() < 3 {
        r == Err::<(), ParseStoryboardError>(ParseStoryboardError::InvalidLine) && f == o
    } else if o.sprite.0 is None {
        r == Ok::<(), ParseStoryboardError>(()) && f == o
    } else if !field_ok(fields[1], MAX_PARSE_VALUE as int) {
        r == Err::<(), ParseStoryboardError>(
            ParseStoryboardError::Number(field_err(fields[1], MAX_PARSE_VALUE as int)),
        ) && f == o
    } else if !int_field_ok(fields[2]) {
        r == Err::<(), ParseStoryboardError>(
            ParseStoryboardError::Number(int_field_err(fields[2])),
        ) && f == o
    } else {
        let st = field_units(fields[1]);
        let rep = int_field_val(fields[2]);
        let iters: int = if rep > 1 {
            rep
        } else {
            1
        };
        &&& r == Ok::<(), ParseStoryboardError>(())
        &&& f.arena@.len() == o.arena@.len() + 1
        &&& forall|i: int| 0 <= i < o.arena@.len() ==> f.arena@[i] == o.arena@[i]
        &&& f.arena@.last().inv() && f.arena@.last().is_empty()
        &&& f.timeline_group is Some
        &&& f.timeline_group.unwrap() as int == o.arena@.len()
        &&& pending_loop_pushed(
            o.sprite,
            f.sprite,
            CommandLoopInternal {
                group: o.arena@.len() as usize,
                loop_start_time: Num { units: st as i128 },
                total_iterations: iters as u32,
            },
        )
        &&& f.format_version == o.format_version
        &&& f.use_skin_sprites == o.use_skin_sprites
        &&& f.background_file == o.background_file
        &&& f.breaks == o.breaks
        &&& f.storyboard == o.storyboard
        &&& f.variables == o.variables
    }
}

/// What a trigger header does.
pub open spec fn trigger_effect(
    o: StoryboardState,
    f: StoryboardState,
    fields: Seq<Seq<u8>>,
    r: Result<(), ParseStoryboardError>,
) -> bool {
    if fields.len() < 2 {
        r == Err::<(), ParseStoryboardError>(ParseStoryboardError::InvalidLine) && f == o
    } else if o.sprite.0 is None {
        r == Ok::<(), ParseStoryboardError>(()) && f == o
    } else if fields.len() >= 3 && !field_ok(fields[2], MAX_PARSE_VALUE as int) {
        r == Err::<(), ParseStoryboardError>(
            ParseStoryboardError::Number(field_err(fields[2], MAX_PARSE_VALUE as int)),
        ) && f == o
    } else if fields.len() >= 4 && !field_ok(fields[3], MAX_PARSE_VALUE as int) {
        r == Err::<(), ParseStoryboardError>(
            ParseStoryboardError::Number(field_err(fields[3], MAX_PARSE_VALUE as int)),
        ) && f == o
    } else if fields.len() >= 5 && !int_field_ok(fields[4]) {
        r == Err::<(), ParseStoryboardError>(
            ParseStoryboardError::Number(int_field_err(fields[4])),
        ) && f == o
    } else {
        let st = if fields.len() >= 3 {
            field_units(fields[2])
        } else {
            -(UNITS_CAP as int)
        };
        let et = if fields.len() >= 4 {
            field_units(fields[3])
        } else {
            UNITS_CAP as int
        };
        let gn = if fields.len() >= 5 {
            int_field_val(fields[4])
        } else {
            0
        };
        &&& r == Ok::<(), ParseStoryboardError>(())
        &&& f.arena@.len() == o.arena@.len() + 1
        &&& forall|i: int| 0 <= i < o.arena@.len() ==> f.arena@[i] == o.arena@[i]
        &&& f.arena@.last().inv() && f.arena@.last().is_empty()
        &&& f.timeline_group is Some
        &&& f.timeline_group.unwrap() as int == o.arena@.len()
        &&& pending_trigger_pushed(
            o.sprite,
            f.sprite,
            o.arena@.len() as int,
            fields[1],
            st,
            et,
            gn,
        )
        &&& f.format_version == o.format_version
        &&& f.use_skin_sprites == o.use_skin_sprites
        &&& f.background_file == o.background_file
        &&& f.breaks == o.breaks
        &&& f.storyboard == o.storyboard
        &&& f.variables == o.variables
    }
}

/// The pending element was flushed; everything else stands.
pub open spec fn flushed_rel(o: StoryboardState, m: StoryboardState) -> bool {
    &&& m.sprite.0 is None
    &&& match o.sprite.0 {
        Option::Some(inner) => placed(
            o.storyboard,
            m.storyboard,
            inner.layer@,
            inner.path@,
            kind_of_pending(inner.kind),
        ),
        Option::None => m.storyboard == o.storyboard,
    }
    &&& m.format_version == o.format_version
    &&& m.use_skin_sprites == o.use_skin_sprites
    &&& m.background_file == o.background_file
    &&& m.breaks == o.breaks
    &&& m.timeline_group == o.timeline_group
    &&& m.variables == o.variables
    &&& m.arena == o.arena
}

/// At depth one the target returns to the pending element's own group; at
/// greater depths it stands where the last scope put it.
pub open spec fn retargeted_rel(o: StoryboardState, m: StoryboardState, d: int) -> bool {
    &&& m.timeline_group == if d < 2 && o.sprite.0 is Some {
        Option::Some(o.sprite.0.unwrap().kind.sprite().timeline_group)
    } else {
        o.timeline_group
    }
    &&& m.format_version == o.format_version
    &&& m.use_skin_sprites == o.use_skin_sprites
    &&& m.background_file == o.background_file
    &&& m.breaks == o.breaks
    &&& m.storyboard == o.storyboard
    &&& m.sprite == o.sprite
    &&& m.variables == o.variables
    &&& m.arena == o.arena
}

/// The dispatch of a top-level event line by its leading token.
pub open spec fn top_level_effect(
    m: StoryboardState,
    f: StoryboardState,
    fields: Seq<Seq<u8>>,
    r: Result<(), ParseStoryboardError>,
) -> bool {
    let tok = fields[0];
    if tok == "1".spec_bytes() || tok == "Video".spec_bytes() {
        video_effect(m, f, fields, r)
    } else if tok == "4".spec_bytes() || tok == "Sprite".spec_bytes() {
        sprite_effect(m, f, fields, r)
    } else if tok == "6".spec_bytes() || tok == "Animation".spec_bytes() {
        animation_effect(m, f, fields, r)
    } else if tok == "5".spec_bytes() || tok == "Sample".spec_bytes() {
        sample_effect(m, f, fields, r)
    } else if tok == "0".spec_bytes() || tok == "Background".spec_bytes() {
        background_effect(m, f, fields, r)
    } else if tok == "2".spec_bytes() || tok == "Break".spec_bytes() {
        break_effect(m, f, fields, r)
    } else if tok == "3".spec_bytes() || tok == "Colour".spec_bytes() {
        r == Ok::<(), ParseStoryboardError>(()) && f == m
    } else {
        r == Err::<(), ParseStoryboardError>(ParseStoryboardError::EventType) && f == m
    }
}

/// The dispatch of a command line by its leading token, with the shared
/// easing and time fields read first; an empty end time falls back to the
/// start time.
pub open spec fn command_line_effect(
    m: StoryboardState,
    f: StoryboardState,
    fields: Seq<Seq<u8>>,
    r: Result<(), ParseStoryboardError>,
) -> bool {
    let tok = fields[0];
    if tok == "T".spec_bytes() {
        trigger_effect(m, f, fields, r)
    } else if tok == "L".spec_bytes() {
        loop_effect(m, f, fields, r)
    } else if fields.len() < 4 {
        r == Err::<(), ParseStoryboardError>(ParseStoryboardError::InvalidLine) && f == m
    } else if !int_field_ok(fields[1]) {
        r == Err::<(), ParseStoryboardError>(
            ParseStoryboardError::Number(int_field_err(fields[1])),
        ) && f == m
    } else if !field_ok(fields[2], MAX_PARSE_VALUE as int) {
        r == Err::<(), ParseStoryboardError>(
            ParseStoryboardError::Number(field_err(fields[2], MAX_PARSE_VALUE as int)),
        ) && f == m
    } else if fields[3].len() > 0 && !field_ok(fields[3], MAX_PARSE_VALUE as int) {
        r == Err::<(), ParseStoryboardError>(
            ParseStoryboardError::Number(field_err(fields[3], MAX_PARSE_VALUE as int)),
        ) && f == m
    } else {
        let easing = crate::visual::easing_from_code(int_field_val(fields[1]));
        let st = Num { units: field_units(fields[2]) as i128 };
        let et = if fields[3].len() == 0 {
            st
        } else {
            Num { units: field_units(fields[3]) as i128 }
        };
        command_dispatch_effect(m, f, fields, easing, st, et, r)
    }
}

/// The dispatch of a property command by its acronym, once the easing and
/// times are read.
pub open spec fn command_dispatch_effect(
    m: StoryboardState,
    f: StoryboardState,
    fields: Seq<Seq<u8>>,
    easing: Easing,
    st: Num,
    et: Num,
    r: Result<(), ParseStoryboardError>,
) -> bool {
    let tok = fields[0];
    if tok == "F".spec_bytes() {
        alpha_effect(m, f, fields, easing, st, et, r)
    } else if tok == "S".spec_bytes() {
        scale_effect(m, f, fields, easing, st, et, r)
    } else if tok == "V".spec_bytes() {
        vector_scale_effect(m, f, fields, easing, st, et, r)
    } else if tok == "R".spec_bytes() {
        rotation_effect(m, f, fields, easing, st, et, r)
    } else if tok == "M".spec_bytes() {
        pos_effect(m, f, fields, easing, st, et, r)
    } else if tok == "MX".spec_bytes() {
        x_effect(m, f, fields, easing, st, et, r)
    } else if tok == "MY".spec_bytes() {
        y_effect(m, f, fields, easing, st, et, r)
    } else if tok == "C".spec_bytes() {
        color_effect(m, f, fields, easing, st, et, r)
    } else if tok == "P".spec_bytes() {
        parameter_effect(m, f, fields, easing, st, et, r)
    } else {
        r == Err::<(), ParseStoryboardError>(ParseStoryboardError::UnknownCommandType) && f == m
    }
}


/// What one events-section line does: after comment trimming and variable
/// substitution, a depth-zero line flushes the pending element and reads an
/// event, and a deeper line addresses a command at the current target,
/// which a depth-one line first resets to the pending element's own group.
pub open spec fn events_line_effect(
    o: StoryboardState,
    f: StoryboardState,
    line: Seq<u8>,
    r: Result<(), ParseStoryboardError>,
) -> bool {
    let t = subst_full(trim_comment_spec(line), vars_view(o.variables@), SUBST_PASS_LIMIT as nat);
    let d = depth_of(t);
    let fields = crate::text::split_at_byte(t.skip(d), 44);
    if d == 0 {
        exists|m: StoryboardState|
            #[trigger] flushed_rel(o, m) && top_level_effect(m, f, fields, r)
    } else {
        exists|m: StoryboardState|
            #[trigger] retargeted_rel(o, m, d) && command_line_effect(m, f, fields, r)
    }
}

impl StoryboardState {
    /// Read one line of the events section.
    ///
    /// The line first has its comment and trailing whitespace removed and
    /// its variables substituted. Its leading spaces and underscores give
    /// the nesting depth: at depth zero the pending element is flushed and
    /// an event line is read; deeper lines address commands at the current
    /// target, which a depth-one line first resets to the pending element's
    /// own timeline group.
    #[verifier::rlimit(100)]
    #[verifier::spinoff_prover]
    pub fn parse_events(&mut self, line: &[u8]) -> (r: Result<(), ParseStoryboardError>)
        requires
            old(self).inv(),
        ensures
            final(self).inv(),
            events_line_effect(*old(self), *final(self), line@, r),
    {
        let trimmed = trim_comment(line);
        let substd = self.decode_variables(trimmed.as_slice());
        let ghost t = substd@;
        let depth = count_depth(substd.as_slice());
        let rest = subrange_vec(substd.as_slice(), depth, substd.len());
        proof {
            assert(rest@ =~= t.skip(depth as int));
        }
        let fields = crate::text::split_bytes(rest.as_slice(), 44);
        let ghost fs = crate::text::split_at_byte(t.skip(depth as int), 44);
        proof {
            assert(field_views(fields@) =~= fs);
        }
        if depth == 0 {
            self.sprite.add(&mut self.storyboard);
            proof {
                match old(self).sprite.0 {
                    Option::Some(inner) => {
                        lemma_placed_handles(
                            old(self).storyboard,
                            self.storyboard,
                            inner.layer@,
                            inner.path@,
                            kind_of_pending(inner.kind),
                            self.arena@.len() as int,
                        );
                    },
                    Option::None => {},
                }
            }
            let ghost m = *self;
            proof {
                assert(flushed_rel(*old(self), m));
            }
            let r = self.dispatch_event(&fields);
            proof {
                assert(top_level_effect(m, *self, fs, r));
            }
            return r;
        }
        let target_opt: Option<usize> = match self.sprite.inner() {
            Some(sp) => Some(sp.timeline_group),
            None => None,
        };
        if depth < 2 {
            match target_opt {
                Some(h) => {
                    self.timeline_group = Some(h);
                },
                None => {},
            }
        }
        let ghost m = *self;
        proof {
            assert(retargeted_rel(*old(self), m, depth as int));
        }
        let tok = &fields[0];
        if crate::text::bytes_eq(tok.as_slice(), "T".as_bytes()) {
            let r = self.parse_trigger(&fields);
            proof {
                assert(command_line_effect(m, *self, fs, r));
            }
            return r;
        }
        if crate::text::bytes_eq(tok.as_slice(), "L".as_bytes()) {
            let r = self.parse_loop(&fields);
            proof {
                assert(command_line_effect(m, *self, fs, r));
            }
            return r;
        }
        if fields.len() < 4 {
            let r: Result<(), ParseStoryboardError> = Err(ParseStoryboardError::InvalidLine);
            proof {
                assert(command_line_effect(m, *self, fs, r));
            }
            return r;
        }
        let easing_code: i32 = match parse_i32(fields[1].as_slice()) {
            Ok(v) => v,
            Err(e) => {
                let r: Result<(), ParseStoryboardError> = Err(ParseStoryboardError::Number(e));
                proof {
                    assert(command_line_effect(m, *self, fs, r));
                }
                return r;
            },
        };
        let easing = Easing::from_code(easing_code);
        let st: Num = match parse_num(fields[2].as_slice(), MAX_PARSE_VALUE) {
            Ok(v) => v,
            Err(e) => {
                let r: Result<(), ParseStoryboardError> = Err(ParseStoryboardError::Number(e));
                proof {
                    assert(command_line_effect(m, *self, fs, r));
                }
                return r;
            },
        };
        let et: Num = if fields[3].len() == 0 {
            st
        } else {
            match parse_num(fields[3].as_slice(), MAX_PARSE_VALUE) {
                Ok(v) => v,
                Err(e) => {
                    let r: Result<(), ParseStoryboardError> = Err(
                        ParseStoryboardError::Number(e),
                    );
                    proof {
                        assert(command_line_effect(m, *self, fs, r));
                    }
                    return r;
                },
            }
        };
        proof {
            assert(2147483647 * (SCALE as int) < UNITS_CAP as int);
            assert(st.strict());
            assert(et.strict());
        }
        let r = self.dispatch_command(&fields, easing, st, et);
        proof {
            assert(command_line_effect(m, *self, fs, r));
        }
        r
    }

    /// Dispatch a top-level event line by its leading token.
    #[verifier::rlimit(100)]
    #[verifier::spinoff_prover]
    fn dispatch_event(&mut self, fields: &Vec<Vec<u8>>) -> (r: Result<(), ParseStoryboardError>)
        requires
            old(self).inv(),
            fields@.len() >= 1,
        ensures
            final(self).inv(),
            top_level_effect(*old(self), *final(self), field_views(fields@), r),
    {
        proof {
            assert(forall|i: int|
                0 <= i < fields@.len() ==> #[trigger] field_views(fields@)[i] == fields@[i]@);
        }
        let tok = &fields[0];
        if crate::text::bytes_eq(tok.as_slice(), "1".as_bytes()) || crate::text::bytes_eq(
            tok.as_slice(),
            "Video".as_bytes(),
        ) {
            self.parse_video(fields)
        } else if crate::text::bytes_eq(tok.as_slice(), "4".as_bytes())
            || crate::text::bytes_eq(tok.as_slice(), "Sprite".as_bytes()) {
            self.parse_sprite(fields)
        } else if crate::text::bytes_eq(tok.as_slice(), "6".as_bytes())
            || crate::text::bytes_eq(tok.as_slice(), "Animation".as_bytes()) {
            self.parse_animation(fields)
        } else if crate::text::bytes_eq(tok.as_slice(), "5".as_bytes())
            || crate::text::bytes_eq(tok.as_slice(), "Sample".as_bytes()) {
            self.parse_sample(fields)
        } else if crate::text::bytes_eq(tok.as_slice(), "0".as_bytes())
            || crate::text::bytes_eq(tok.as_slice(), "Background".as_bytes()) {
            self.parse_background(fields)
        } else if crate::text::bytes_eq(tok.as_slice(), "2".as_bytes())
            || crate::text::bytes_eq(tok.as_slice(), "Break".as_bytes()) {
            self.parse_break(fields)
        } else if crate::text::bytes_eq(tok.as_slice(), "3".as_bytes())
            || crate::text::bytes_eq(tok.as_slice(), "Colour".as_bytes()) {
            Ok(())
        } else {
            Err(ParseStoryboardError::EventType)
        }
    }

    /// Dispatch a property command line by its acronym.
    #[verifier::rlimit(100)]
    #[verifier::spinoff_prover]
    fn dispatch_command(
        &mut self,
        fields: &Vec<Vec<u8>>,
        easing: Easing,
        st: Num,
        et: Num,
    ) -> (r: Result<(), ParseStoryboardError>)
        requires
            old(self).inv(),
            fields@.len() >= 1,
            st.strict(),
            et.strict(),
        ensures
            final(self).inv(),
            command_dispatch_effect(*old(self), *final(self), field_views(fields@), easing, st, et, r),
    {
        proof {
            assert(forall|i: int|
                0 <= i < fields@.len() ==> #[trigger] field_views(fields@)[i] == fields@[i]@);
        }
        let tok = &fields[0];
        if crate::text::bytes_eq(tok.as_slice(), "F".as_bytes()) {
            self.parse_alpha(fields, easing, st, et)
        } else if crate::text::bytes_eq(tok.as_slice(), "S".as_bytes()) {
            self.parse_scale(fields, easing, st, et)
        } else if crate::text::bytes_eq(tok.as_slice(), "V".as_bytes()) {
            self.parse_vector_scale(fields, easing, st, et)
        } else if crate::text::bytes_eq(tok.as_slice(), "R".as_bytes()) {
            self.parse_rotation(fields, easing, st, et)
        } else if crate::text::bytes_eq(tok.as_slice(), "M".as_bytes()) {
            self.parse_pos(fields, easing, st, et)
        } else if crate::text::bytes_eq(tok.as_slice(), "MX".as_bytes()) {
            self.parse_x(fields, easing, st, et)
        } else if crate::text::bytes_eq(tok.as_slice(), "MY".as_bytes()) {
            self.parse_y(fields, easing, st, et)
        } else if crate::text::bytes_eq(tok.as_slice(), "C".as_bytes()) {
            self.parse_color(fields, easing, st, et)
        } else if crate::text::bytes_eq(tok.as_slice(), "P".as_bytes()) {
            if fields.len() < 5 {
                Err(ParseStoryboardError::InvalidLine)
            } else if self.timeline_group.is_none() {
                Ok(())
            } else if crate::text::bytes_eq(fields[4].as_slice(), "A".as_bytes()) {
                self.add_blending(easing, st, et);
                Ok(())
            } else if crate::text::bytes_eq(fields[4].as_slice(), "H".as_bytes()) {
                self.add_flip_h(easing, st, et);
                Ok(())
            } else if crate::text::bytes_eq(fields[4].as_slice(), "V".as_bytes()) {
                self.add_flip_v(easing, st, et);
                Ok(())
            } else {
                Ok(())
            }
        } else {
            Err(ParseStoryboardError::UnknownCommandType)
        }
    }
}


/// How finishing turns a decoder state into the model: the pending element
/// is flushed, and each owner receives a copy of its arena group.
pub open spec fn finish_rel(s: StoryboardState, r: crate::storyboard::Storyboard) -> bool {
    exists|m: StoryboardState|
        {
            &&& #[trigger] flushed_rel(s, m)
            &&& r.format_version == m.format_version
            &&& r.use_skin_sprites == m.use_skin_sprites
            &&& r.background_file == m.background_file
            &&& r.breaks == m.breaks
            &&& r.min_layer_depth == m.storyboard.min_layer_depth
            &&& r.layers@.len() == m.storyboard.layers@.len()
            &&& forall|i: int|
                0 <= i < m.storyboard.layers@.len() ==> converted_layer(
                    m.storyboard.layers@[i],
                    #[trigger] r.layers@[i],
                    m.arena@,
                )
        }
}

/// Two timelines hold the very same aggregates and commands.
pub open spec fn timeline_eq_view<T>(a: CommandTimeline<T>, b: CommandTimeline<T>) -> bool {
    &&& a.start_time == b.start_time
    &&& a.end_time == b.end_time
    &&& a.start_value == b.start_value
    &&& a.end_value == b.end_value
    &&& a.commands@ == b.commands@
}

/// Two groups hold the very same ten timelines.
pub open spec fn group_eq_view(a: CommandTimelineGroup, b: CommandTimelineGroup) -> bool {
    &&& timeline_eq_view(a.x, b.x)
    &&& timeline_eq_view(a.y, b.y)
    &&& timeline_eq_view(a.scale, b.scale)
    &&& timeline_eq_view(a.vector_scale, b.vector_scale)
    &&& timeline_eq_view(a.rotation, b.rotation)
    &&& timeline_eq_view(a.color, b.color)
    &&& timeline_eq_view(a.alpha, b.alpha)
    &&& timeline_eq_view(a.blending_parameters, b.blending_parameters)
    &&& timeline_eq_view(a.flip_h, b.flip_h)
    &&& timeline_eq_view(a.flip_v, b.flip_v)
}

/// A finished sprite carries copies of the arena groups its scaffold
/// addressed by handle.
pub open spec fn converted_sprite(
    si: StoryboardSpriteInternal,
    so: crate::element::StoryboardSprite,
    arena: Seq<CommandTimelineGroup>,
) -> bool {
    &&& so.origin == si.origin
    &&& so.initial_pos == si.initial_pos
    &&& group_eq_view(so.timeline_group, arena[si.timeline_group as int])
    &&& so.loops@.len() == si.loops@.len()
    &&& forall|k: int|
        0 <= k < si.loops@.len() ==> {
            &&& (#[trigger] so.loops@[k]).loop_start_time == si.loops@[k].loop_start_time
            &&& so.loops@[k].total_iterations == si.loops@[k].total_iterations
            &&& group_eq_view(so.loops@[k].group, arena[si.loops@[k].group as int])
        }
    &&& so.triggers@.len() == si.triggers@.len()
    &&& forall|k: int|
        0 <= k < si.triggers@.len() ==> {
            &&& (#[trigger] so.triggers@[k]).name@ == si.triggers@[k].name@
            &&& so.triggers@[k].start_time == si.triggers@[k].start_time
            &&& so.triggers@[k].end_time == si.triggers@[k].end_time
            &&& so.triggers@[k].group_num == si.triggers@[k].group_num
            &&& group_eq_view(so.triggers@[k].group, arena[si.triggers@[k].group as int])
        }
}

/// A finished element matches its scaffold, groups copied out of the arena.
pub open spec fn converted_elem(
    e: ElementInternal,
    o: crate::element::StoryboardElement,
    arena: Seq<CommandTimelineGroup>,
) -> bool {
    &&& o.path@ == e.path@
    &&& match (e.kind, o.kind) {
        (
            ElementKindInternal::Sprite(si),
            crate::element::StoryboardElementKind::Sprite(so),
        ) => converted_sprite(si, so, arena),
        (
            ElementKindInternal::Animation(ai),
            crate::element::StoryboardElementKind::Animation(ao),
        ) => converted_sprite(ai.sprite, ao.sprite, arena) && ao.frame_count == ai.frame_count
            && ao.frame_delay == ai.frame_delay && ao.loop_kind == ai.loop_kind,
        (
            ElementKindInternal::Sample(x),
            crate::element::StoryboardElementKind::Sample(y),
        ) => x == y,
        (ElementKindInternal::Video(x), crate::element::StoryboardElementKind::Video(y)) => x
            == y,
        _ => false,
    }
}

/// A finished layer matches its scaffold element for element.
pub open spec fn converted_layer(
    li: LayerInternal,
    lo: crate::layer::StoryboardLayer,
    arena: Seq<CommandTimelineGroup>,
) -> bool {
    &&& lo.name@ == li.name@
    &&& lo.depth == li.depth
    &&& lo.masking == li.masking
    &&& lo.visible_when_passing == li.visible_when_passing
    &&& lo.visible_when_failing == li.visible_when_failing
    &&& lo.elements@.len() == li.elements@.len()
    &&& forall|j: int|
        0 <= j < li.elements@.len() ==> converted_elem(
            li.elements@[j],
            #[trigger] lo.elements@[j],
            arena,
        )
}

/// Copy one timeline.
fn copy_timeline<T: Copy>(t: &CommandTimeline<T>) -> (r: CommandTimeline<T>)
    ensures
        timeline_eq_view(r, *t),
{
    let mut commands: Vec<TypedCommand<T>> = Vec::new();
    let n = t.commands.len();
    let mut i: usize = 0;
    while i < n
        invariant
            0 <= i <= n,
            n == t.commands@.len(),
            commands@ =~= t.commands@.take(i as int),
        decreases n - i,
    {
        commands.push(t.commands[i]);
        proof {
            assert(commands@ =~= t.commands@.take(i + 1));
        }
        i = i + 1;
    }
    proof {
        assert(t.commands@.take(n as int) =~= t.commands@);
    }
    CommandTimeline {
        start_time: t.start_time,
        end_time: t.end_time,
        start_value: t.start_value,
        end_value: t.end_value,
        commands,
    }
}

/// Copy one timeline group.
fn copy_group(g: &CommandTimelineGroup) -> (r: CommandTimelineGroup)
    ensures
        group_eq_view(r, *g),
{
    CommandTimelineGroup {
        x: copy_timeline(&g.x),
        y: copy_timeline(&g.y),
        scale: copy_timeline(&g.scale),
        vector_scale: copy_timeline(&g.vector_scale),
        rotation: copy_timeline(&g.rotation),
        color: copy_timeline(&g.color),
        alpha: copy_timeline(&g.alpha),
        blending_parameters: copy_timeline(&g.blending_parameters),
        flip_h: copy_timeline(&g.flip_h),
        flip_v: copy_timeline(&g.flip_v),
    }
}

/// Build a finished sprite from its scaffold.
fn convert_sprite(si: &StoryboardSpriteInternal, arena: &Vec<CommandTimelineGroup>) -> (r:
    crate::element::StoryboardSprite)
    requires
        si.handles_ok(arena@.len() as int),
        forall|i: int| 0 <= i < arena@.len() ==> (#[trigger] arena@[i]).inv(),
    ensures
        converted_sprite(*si, r, arena@),
        r.inv(),
{
    let group = copy_group(&arena[si.timeline_group]);
    let mut loops: Vec<crate::command_loop::CommandLoop> = Vec::new();
    let n = si.loops.len();
    let mut i: usize = 0;
    while i < n
        invariant
            0 <= i <= n,
            n == si.loops@.len(),
            si.handles_ok(arena@.len() as int),
            forall|k: int| 0 <= k < arena@.len() ==> (#[trigger] arena@[k]).inv(),
            loops@.len() == i,
            forall|k: int|
                0 <= k < i ==> {
                    &&& (#[trigger] loops@[k]).loop_start_time == si.loops@[k].loop_start_time
                    &&& loops@[k].total_iterations == si.loops@[k].total_iterations
                    &&& group_eq_view(loops@[k].group, arena@[si.loops@[k].group as int])
                    &&& loops@[k].inv()
                },
        decreases n - i,
    {
        let li = &si.loops[i];
        let l = crate::command_loop::CommandLoop {
            group: copy_group(&arena[li.group]),
            loop_start_time: li.loop_start_time,
            total_iterations: li.total_iterations,
        };
        loops.push(l);
        i = i + 1;
    }
    let mut triggers: Vec<crate::command_trigger::CommandTrigger> = Vec::new();
    let tn = si.triggers.len();
    let mut j: usize = 0;
    while j < tn
        invariant
            0 <= j <= tn,
            tn == si.triggers@.len(),
            si.handles_ok(arena@.len() as int),
            forall|k: int| 0 <= k < arena@.len() ==> (#[trigger] arena@[k]).inv(),
            triggers@.len() == j,
            forall|k: int|
                0 <= k < j ==> {
                    &&& (#[trigger] triggers@[k]).name@ == si.triggers@[k].name@
                    &&& triggers@[k].start_time == si.triggers@[k].start_time
                    &&& triggers@[k].end_time == si.triggers@[k].end_time
                    &&& triggers@[k].group_num == si.triggers@[k].group_num
                    &&& group_eq_view(triggers@[k].group, arena@[si.triggers@[k].group as int])
                    &&& triggers@[k].inv()
                },
        decreases tn - j,
    {
        let ti = &si.triggers[j];
        let t = crate::command_trigger::CommandTrigger {
            group: copy_group(&arena[ti.group]),
            name: crate::layer::slice_to_vec(ti.name.as_slice()),
            start_time: ti.start_time,
            end_time: ti.end_time,
            group_num: ti.group_num,
        };
        triggers.push(t);
        j = j + 1;
    }
    crate::element::StoryboardSprite {
        origin: si.origin,
        initial_pos: si.initial_pos,
        timeline_group: group,
        loops,
        triggers,
    }
}

impl StoryboardState {
    /// Finish decoding: flush the pending element and hand every owner a
    /// copy of its arena group, so that the finished tree has exactly one
    /// owner per group.
    pub fn finish(self) -> (r: crate::storyboard::Storyboard)
        requires
            self.inv(),
        ensures
            r.inv(),
            finish_rel(self, r),
    {
        let ghost init = self;
        let mut st = self;
        st.sprite.add(&mut st.storyboard);
        proof {
            match init.sprite.0 {
                Option::Some(inner) => {
                    lemma_placed_handles(
                        init.storyboard,
                        st.storyboard,
                        inner.layer@,
                        inner.path@,
                        kind_of_pending(inner.kind),
                        st.arena@.len() as int,
                    );
                },
                Option::None => {},
            }
        }
        let ghost m = st;
        proof {
            assert(flushed_rel(init, m));
        }
        let mut layers: Vec<crate::layer::StoryboardLayer> = Vec::new();
        let n = st.storyboard.layers.len();
        let mut i: usize = 0;
        while i < n
            invariant
                0 <= i <= n,
                st == m,
                n == st.storyboard.layers@.len(),
                st.inv(),
                layers@.len() == i,
                forall|k: int|
                    0 <= k < i ==> converted_layer(
                        st.storyboard.layers@[k],
                        #[trigger] layers@[k],
                        st.arena@,
                    ) && layers@[k].inv(),
            decreases n - i,
        {
            let li = &st.storyboard.layers[i];
            let mut elements: Vec<crate::element::StoryboardElement> = Vec::new();
            let en = li.elements.len();
            let mut j: usize = 0;
            while j < en
                invariant
                    0 <= j <= en,
                    0 <= i < n,
                    st == m,
                    n == st.storyboard.layers@.len(),
                    li == &st.storyboard.layers@[i as int],
                    en == li.elements@.len(),
                    st.inv(),
                    elements@.len() == j,
                    forall|k: int|
                        0 <= k < j ==> converted_elem(
                            li.elements@[k],
                            #[trigger] elements@[k],
                            st.arena@,
                        ) && elements@[k].inv(),
                decreases en - j,
            {
                let ei = &li.elements[j];
                proof {
                    assert(elems_handles_ok(
                        st.storyboard.layers@[i as int].elements@,
                        st.arena@.len() as int,
                    ));
                    assert(st.storyboard.layers@[i as int].elements@[j as int].kind.handles_ok(
                        st.arena@.len() as int,
                    ));
                }
                let kind: crate::element::StoryboardElementKind = match &ei.kind {
                    ElementKindInternal::Sprite(si) => crate::element::StoryboardElementKind::Sprite(
                        convert_sprite(si, &st.arena),
                    ),
                    ElementKindInternal::Animation(
                        ai,
                    ) => crate::element::StoryboardElementKind::Animation(
                        crate::element::StoryboardAnimation {
                            sprite: convert_sprite(&ai.sprite, &st.arena),
                            frame_count: ai.frame_count,
                            frame_delay: ai.frame_delay,
                            loop_kind: ai.loop_kind,
                        },
                    ),
                    ElementKindInternal::Sample(sm) => crate::element::StoryboardElementKind::Sample(
                        *sm,
                    ),
                    ElementKindInternal::Video(v) => crate::element::StoryboardElementKind::Video(
                        *v,
                    ),
                };
                elements.push(
                    crate::element::StoryboardElement {
                        path: crate::layer::slice_to_vec(ei.path.as_slice()),
                        kind,
                    },
                );
                j = j + 1;
            }
            layers.push(
                crate::layer::StoryboardLayer {
                    name: crate::layer::slice_to_vec(li.name.as_slice()),
                    depth: li.depth,
                    masking: li.masking,
                    visible_when_passing: li.visible_when_passing,
                    visible_when_failing: li.visible_when_failing,
                    elements,
                },
            );
            i = i + 1;
        }
        crate::storyboard::Storyboard {
            format_version: st.format_version,
            use_skin_sprites: st.use_skin_sprites,
            background_file: st.background_file,
            breaks: st.breaks,
            layers,
            min_layer_depth: st.storyboard.min_layer_depth,
        }
    }
}


/// Whether a line is left unread: empty lines and comment lines.
pub open spec fn skip_line(line: Seq<u8>) -> bool {
    line.len() == 0 || is_match_at(line, "//".spec_bytes(), 0)
}

/// The section a header line opens: the three sections this library reads,
/// zero for a section it ignores, and `-1` for a line that is no header.
pub open spec fn header_code(line: Seq<u8>) -> int {
    if line == "[General]".spec_bytes() {
        1
    } else if line == "[Events]".spec_bytes() {
        2
    } else if line == "[Variables]".spec_bytes() {
        3
    } else if line == "[Editor]".spec_bytes() || line == "[Metadata]".spec_bytes() || line
        == "[Difficulty]".spec_bytes() || line == "[TimingPoints]".spec_bytes() || line
        == "[Colours]".spec_bytes() || line == "[HitObjects]".spec_bytes() || line
        == "[CatchTheBeat]".spec_bytes() || line == "[Mania]".spec_bytes() {
        0
    } else {
        -1
    }
}

/// The document's text as eight-bit bytes: a byte-order mark picks the
/// source encoding, and sixteen-bit documents are re-written.
pub open spec fn doc_body(data: Seq<u8>) -> Seq<u8> {
    if data.len() >= 3 && data[0] == 239 && data[1] == 187 && data[2] == 191 {
        data.skip(3)
    } else if data.len() >= 2 && data[0] == 255 && data[1] == 254 {
        utf16_to_utf8(data.skip(2), true)
    } else if data.len() >= 2 && data[0] == 254 && data[1] == 255 {
        utf16_to_utf8(data.skip(2), false)
    } else {
        data
    }
}

/// The document's lines: cut at line feeds, each without its trailing
/// whitespace.
pub open spec fn doc_lines(data: Seq<u8>) -> Seq<Seq<u8>> {
    crate::text::split_at_byte(doc_body(data), 10).map_values(|l: Seq<u8>| trim_end_spec(l))
}

/// The index of the first non-empty line at or after `i`.
pub open spec fn first_nonempty(lines: Seq<Seq<u8>>, i: int) -> int
    decreases lines.len() - i,
{
    if i < 0 || i >= lines.len() {
        lines.len() as int
    } else if lines[i].len() == 0 {
        first_nonempty(lines, i + 1)
    } else {
        i
    }
}

/// The position of the last lowercase v, or zero when there is none.
pub open spec fn last_v_or_zero(line: Seq<u8>) -> int
    decreases line.len(),
{
    if line.len() == 0 {
        0
    } else if line.last() == 118 {
        line.len() - 1
    } else {
        last_v_or_zero(line.drop_last())
    }
}

/// The declared format version and the line index decoding continues from:
/// the first non-empty line declares the version when it carries the
/// version prefix and a readable number after its last v; otherwise the
/// current version is assumed and the line is reconsidered.
pub open spec fn doc_version(lines: Seq<Seq<u8>>) -> (int, int) {
    let k = first_nonempty(lines, 0);
    if k < lines.len() && is_match_at(lines[k], "osu file format v".spec_bytes(), 0) {
        let tail = lines[k].skip(last_v_or_zero(lines[k]) + 1);
        if int_field_ok(tail) {
            (int_field_val(tail), k + 1)
        } else {
            (crate::storyboard::LATEST_FORMAT_VERSION as int, k)
        }
    } else {
        (crate::storyboard::LATEST_FORMAT_VERSION as int, k)
    }
}

/// What the parser of section `sec` does to one line; sections this
/// library ignores leave the state as it stands.
pub open spec fn section_line_effect(
    sec: int,
    o: StoryboardState,
    f: StoryboardState,
    line: Seq<u8>,
    r: Result<(), ParseStoryboardError>,
) -> bool {
    if sec == 1 {
        r == Ok::<(), ParseStoryboardError>(()) && general_line_effect(o, f, line)
    } else if sec == 2 {
        events_line_effect(o, f, line, r)
    } else if sec == 3 {
        r == Ok::<(), ParseStoryboardError>(()) && variables_line_effect(o, f, line)
    } else {
        r == Ok::<(), ParseStoryboardError>(()) && f == o
    }
}

/// How the section loop drives the state over the lines from `i` on:
/// skipped lines change nothing, a header switches the section, a content
/// line before the first header is ignored, any other line runs through its
/// section's parser, and the first error ends the decode with that error.
pub open spec fn decode_doc_rel(
    lines: Seq<Seq<u8>>,
    i: int,
    sec: int,
    seen: bool,
    s: StoryboardState,
    outcome: Result<StoryboardState, ParseStoryboardError>,
) -> bool
    decreases lines.len() - i,
{
    if i < 0 || i >= lines.len() {
        outcome == Ok::<StoryboardState, ParseStoryboardError>(s)
    } else if skip_line(lines[i]) {
        decode_doc_rel(lines, i + 1, sec, seen, s, outcome)
    } else if header_code(lines[i]) >= 0 {
        decode_doc_rel(lines, i + 1, header_code(lines[i]), true, s, outcome)
    } else if !seen {
        decode_doc_rel(lines, i + 1, sec, seen, s, outcome)
    } else {
        exists|s2: StoryboardState, r: Result<(), ParseStoryboardError>|
            {
                &&& #[trigger] section_line_effect(sec, s, s2, lines[i], r)
                &&& match r {
                    Ok(_) => decode_doc_rel(lines, i + 1, sec, seen, s2, outcome),
                    Err(e) => outcome == Err::<StoryboardState, ParseStoryboardError>(e),
                }
            }
    }
}

/// Nothing before `p` is non-empty, so `p` is the first non-empty line.
proof fn lemma_first_nonempty_characterize(lines: Seq<Seq<u8>>, i: int, p: int)
    requires
        0 <= i <= p <= lines.len(),
        forall|j: int| i <= j < p ==> (#[trigger] lines[j]).len() == 0,
        p == lines.len() || lines[p].len() > 0,
    ensures
        first_nonempty(lines, i) == p,
    decreases p - i,
{
    if i < p {
        lemma_first_nonempty_characterize(lines, i + 1, p);
    }
}

/// A position holding a v with none after it is the last v; with no v
/// anywhere the fallback is zero.
proof fn lemma_last_v_characterize(line: Seq<u8>, p: int)
    requires
        0 <= p < line.len() || (p == 0 && line.len() == 0),
        forall|m: int| p < m < line.len() ==> #[trigger] line[m] != 118,
        (0 <= p < line.len() && line[p] == 118) || (p == 0 && forall|m: int|
            0 <= m < line.len() ==> #[trigger] line[m] != 118),
    ensures
        last_v_or_zero(line) == p,
    decreases line.len(),
{
    if line.len() == 0 {
    } else if line.last() == 118 {
        assert(p == line.len() - 1);
    } else {
        assert(forall|m: int|
            p < m < line.drop_last().len() ==> #[trigger] line.drop_last()[m] == line[m]);
        if 0 <= p < line.len() && line[p] == 118 {
            assert(p < line.len() - 1);
            assert(line.drop_last()[p] == line[p]);
            lemma_last_v_characterize(line.drop_last(), p);
        } else {
            assert(forall|m: int|
                0 <= m < line.drop_last().len() ==> #[trigger] line.drop_last()[m] == line[m]);
            lemma_last_v_characterize(line.drop_last(), 0);
        }
    }
}

/// Which section's lines a header opens; sections this library does not
/// read are lumped together.
fn section_of_header(line: &[u8]) -> (r: Option<u8>)
    ensures
        match r {
            Some(v) => v as int == header_code(line@),
            None => header_code(line@) == -1,
        },
{
    if crate::text::bytes_eq(line, "[General]".as_bytes()) {
        Some(1)
    } else if crate::text::bytes_eq(line, "[Events]".as_bytes()) {
        Some(2)
    } else if crate::text::bytes_eq(line, "[Variables]".as_bytes()) {
        Some(3)
    } else if crate::text::bytes_eq(line, "[Editor]".as_bytes()) || crate::text::bytes_eq(
        line,
        "[Metadata]".as_bytes(),
    ) || crate::text::bytes_eq(line, "[Difficulty]".as_bytes()) || crate::text::bytes_eq(
        line,
        "[TimingPoints]".as_bytes(),
    ) || crate::text::bytes_eq(line, "[Colours]".as_bytes()) || crate::text::bytes_eq(
        line,
        "[HitObjects]".as_bytes(),
    ) || crate::text::bytes_eq(line, "[CatchTheBeat]".as_bytes()) || crate::text::bytes_eq(
        line,
        "[Mania]".as_bytes(),
    ) {
        Some(0)
    } else {
        None
    }
}

/// Whether a line is forwarded to the section parsers at all.
fn should_skip_line(line: &[u8]) -> (r: bool)
    ensures
        r <==> skip_line(line@),
{
    line.len() == 0 || crate::text::starts_with(line, "//".as_bytes())
}

/// A line without its trailing whitespace.
fn trim_end_line(s: &[u8]) -> (r: Vec<u8>)
    ensures
        r@ == trim_end_spec(s@),
{
    let mut hi: usize = s.len();
    proof {
        assert(s@.take(s@.len() as int) =~= s@);
    }
    while hi > 0 && ws_at(s, hi - 1)
        invariant
            0 <= hi <= s@.len(),
            trim_end_spec(s@) == trim_end_spec(s@.take(hi as int)),
        decreases hi,
    {
        proof {
            let cur = s@.take(hi as int);
            assert(cur.last() == s@[hi - 1]);
            assert(cur.drop_last() =~= s@.take(hi - 1));
        }
        hi = hi - 1;
    }
    proof {
        let cur = s@.take(hi as int);
        if hi > 0 {
            assert(cur.last() == s@[hi - 1]);
        }
        assert(trim_end_spec(cur) == cur);
    }
    subrange_vec(s, 0, hi)
}

/// Read the version header over the document's lines.
fn scan_version(lines: &Vec<Vec<u8>>) -> (r: (i32, usize))
    ensures
        r.0 as int == doc_version(field_views(lines@)).0,
        r.1 as int == doc_version(field_views(lines@)).1,
        r.1 <= lines@.len(),
{
    let ghost dl = field_views(lines@);
    proof {
        assert(forall|i: int| 0 <= i < lines@.len() ==> #[trigger] dl[i] == lines@[i]@);
    }
    let total = lines.len();
    let mut idx: usize = 0;
    while idx < total && lines[idx].len() == 0
        invariant
            0 <= idx <= total,
            total == lines@.len(),
            dl == field_views(lines@),
            forall|i: int| 0 <= i < lines@.len() ==> #[trigger] dl[i] == lines@[i]@,
            forall|j: int| 0 <= j < idx ==> (#[trigger] dl[j]).len() == 0,
        decreases total - idx,
    {
        idx = idx + 1;
    }
    proof {
        lemma_first_nonempty_characterize(dl, 0, idx as int);
    }
    if idx < total && crate::text::starts_with(
        lines[idx].as_slice(),
        "osu file format v".as_bytes(),
    ) {
        let line = &lines[idx];
        let m = line.len();
        let mut vpos: usize = 0;
        let mut j: usize = 0;
        while j < m
            invariant
                0 <= j <= m,
                m == line@.len(),
                vpos < m || (vpos == 0 && m == 0),
                forall|k: int| vpos < k < j ==> #[trigger] line@[k] != 118,
                line@[vpos as int] == 118 || (vpos == 0 && forall|k: int|
                    0 <= k < j ==> #[trigger] line@[k] != 118),
            decreases m - j,
        {
            if line[j] == 118 {
                vpos = j;
            }
            j = j + 1;
        }
        proof {
            lemma_last_v_characterize(line@, vpos as int);
        }
        let tail_from: usize = if vpos < m {
            vpos + 1
        } else {
            m
        };
        let tail = subrange_vec(line.as_slice(), tail_from, m);
        proof {
            assert(tail@ =~= line@.skip(last_v_or_zero(line@) + 1));
        }
        match parse_i32(tail.as_slice()) {
            Ok(v) => (v, idx + 1),
            Err(_) => {
                // a malformed version line is reconsidered as an ordinary
                // line
                (crate::storyboard::LATEST_FORMAT_VERSION, idx)
            },
        }
    } else {
        (crate::storyboard::LATEST_FORMAT_VERSION, idx)
    }
}

impl crate::storyboard::Storyboard {
    /// Decode a whole document: the version header, then the sections, of
    /// which the general, events, and variables sections are read. An error
    /// on an events line ends the decode with that error.
    ///
    /// The result is fixed by the input: from a fresh state for the
    /// declared version, the section loop relation carries the state over
    /// every line, and the finishing conversion hands each owner its
    /// timeline groups.
    #[verifier::rlimit(100)]
    #[verifier::spinoff_prover]
    pub fn decode(data: &[u8]) -> (r: Result<crate::storyboard::Storyboard, ParseStoryboardError>)
        ensures
            ({
                let dl = doc_lines(data@);
                let start = doc_version(dl).1;
                let version = doc_version(dl).0;
                match r {
                    Ok(sb) => sb.inv() && exists|s0: StoryboardState, fin: StoryboardState|
                        {
                            &&& init_state_rel(version, s0)
                            &&& #[trigger] decode_doc_rel(dl, start, 0, false, s0, Ok(fin))
                            &&& finish_rel(fin, sb)
                        },
                    Err(e) => exists|s0: StoryboardState|
                        {
                            &&& init_state_rel(version, s0)
                            &&& #[trigger] decode_doc_rel(
                                dl,
                                start,
                                0,
                                false,
                                s0,
                                Err::<StoryboardState, ParseStoryboardError>(e),
                            )
                        },
                }
            }),
    {
        // a byte-order mark picks the source encoding and is not part of
        // the first line
        let body_vec: Vec<u8> = if data.len() >= 3 && data[0] == 239 && data[1] == 187
            && data[2] == 191 {
            let (_, rest) = data.split_at(3);
            crate::layer::slice_to_vec(rest)
        } else if data.len() >= 2 && data[0] == 255 && data[1] == 254 {
            let (_, rest) = data.split_at(2);
            transcode_utf16(rest, true)
        } else if data.len() >= 2 && data[0] == 254 && data[1] == 255 {
            let (_, rest) = data.split_at(2);
            transcode_utf16(rest, false)
        } else {
            crate::layer::slice_to_vec(data)
        };
        let body = body_vec.as_slice();
        proof {
            assert(body@ =~= doc_body(data@));
        }
        let raw_lines = crate::text::split_bytes(body, 10);
        let mut lines: Vec<Vec<u8>> = Vec::new();
        let n = raw_lines.len();
        let mut i: usize = 0;
        while i < n
            invariant
                0 <= i <= n,
                n == raw_lines@.len(),
                n as int == crate::text::split_at_byte(doc_body(data@), 10).len(),
                lines@.len() == i,
                body@ == doc_body(data@),
                forall|k: int|
                    0 <= k < n ==> (#[trigger] raw_lines@[k])@ == crate::text::split_at_byte(
                        doc_body(data@),
                        10,
                    )[k],
                forall|k: int| 0 <= k < i ==> (#[trigger] lines@[k])@ == doc_lines(data@)[k],
            decreases n - i,
        {
            lines.push(trim_end_line(raw_lines[i].as_slice()));
            proof {
                let parts = crate::text::split_at_byte(doc_body(data@), 10);
                assert(doc_lines(data@).len() == parts.len());
                assert(doc_lines(data@)[i as int] == trim_end_spec(parts[i as int]));
            }
            i = i + 1;
        }
        let ghost dl = doc_lines(data@);
        proof {
            assert(dl.len() == crate::text::split_at_byte(doc_body(data@), 10).len());
            assert(field_views(lines@) =~= dl);
        }
        let (version, start) = scan_version(&lines);
        let mut state = StoryboardState::create(version);
        let ghost s0 = state;
        let total = lines.len();
        let mut idx: usize = start;
        // a section this library ignores; nothing is read before the first
        // header
        let mut section: u8 = 0;
        let mut seen_section: bool = false;
        while idx < total
            invariant
                start <= idx <= total,
                total == lines@.len(),
                dl == doc_lines(data@),
                dl == field_views(lines@),
                forall|k: int| 0 <= k < lines@.len() ==> (#[trigger] lines@[k])@ == dl[k],
                state.inv(),
                init_state_rel(doc_version(dl).0, s0),
                start as int == doc_version(dl).1,
                forall|outcome: Result<StoryboardState, ParseStoryboardError>|
                    #[trigger] decode_doc_rel(
                        dl,
                        idx as int,
                        section as int,
                        seen_section,
                        state,
                        outcome,
                    ) ==> decode_doc_rel(dl, start as int, 0, false, s0, outcome),
            decreases total - idx,
        {
            let line = &lines[idx];
            let ghost pre = state;
            if should_skip_line(line.as_slice()) {
                proof {
                    assert forall|outcome: Result<StoryboardState, ParseStoryboardError>|
                        #[trigger] decode_doc_rel(
                            dl,
                            idx + 1,
                            section as int,
                            seen_section,
                            state,
                            outcome,
                        ) implies decode_doc_rel(dl, start as int, 0, false, s0, outcome) by {
                        assert(decode_doc_rel(
                            dl,
                            idx as int,
                            section as int,
                            seen_section,
                            state,
                            outcome,
                        ));
                    }
                }
                idx = idx + 1;
                continue ;
            }
            match section_of_header(line.as_slice()) {
                Some(sec) => {
                    proof {
                        assert forall|outcome: Result<StoryboardState, ParseStoryboardError>|
                            #[trigger] decode_doc_rel(
                                dl,
                                idx + 1,
                                sec as int,
                                true,
                                state,
                                outcome,
                            ) implies decode_doc_rel(dl, start as int, 0, false, s0, outcome) by {
                            assert(decode_doc_rel(
                                dl,
                                idx as int,
                                section as int,
                                seen_section,
                                state,
                                outcome,
                            ));
                        }
                    }
                    section = sec;
                    seen_section = true;
                },
                None => {
                    if seen_section {
                        let outcome_line: Result<(), ParseStoryboardError> = if section == 1 {
                            state.parse_general(line.as_slice())
                        } else if section == 2 {
                            state.parse_events(line.as_slice())
                        } else if section == 3 {
                            state.parse_variables(line.as_slice())
                        } else {
                            Ok(())
                        };
                        proof {
                            assert(section_line_effect(
                                section as int,
                                pre,
                                state,
                                dl[idx as int],
                                outcome_line,
                            ));
                        }
                        match outcome_line {
                            Ok(_) => {
                                proof {
                                    assert forall|
                                        outcome: Result<StoryboardState, ParseStoryboardError>,
                                    |
                                        #[trigger] decode_doc_rel(
                                            dl,
                                            idx + 1,
                                            section as int,
                                            seen_section,
                                            state,
                                            outcome,
                                        ) implies decode_doc_rel(
                                        dl,
                                        start as int,
                                        0,
                                        false,
                                        s0,
                                        outcome,
                                    ) by {
                                        assert(decode_doc_rel(
                                            dl,
                                            idx as int,
                                            section as int,
                                            seen_section,
                                            pre,
                                            outcome,
                                        ));
                                    }
                                }
                            },
                            Err(e) => {
                                proof {
                                    let oc = Err::<StoryboardState, ParseStoryboardError>(e);
                                    assert(decode_doc_rel(
                                        dl,
                                        idx as int,
                                        section as int,
                                        seen_section,
                                        pre,
                                        oc,
                                    ));
                                    assert(decode_doc_rel(dl, start as int, 0, false, s0, oc));
                                }
                                return Err(e);
                            },
                        }
                    } else {
                        proof {
                            assert forall|outcome: Result<StoryboardState, ParseStoryboardError>|
                                #[trigger] decode_doc_rel(
                                    dl,
                                    idx + 1,
                                    section as int,
                                    seen_section,
                                    state,
                                    outcome,
                                ) implies decode_doc_rel(dl, start as int, 0, false, s0, outcome) by {
                                assert(decode_doc_rel(
                                    dl,
                                    idx as int,
                                    section as int,
                                    seen_section,
                                    state,
                                    outcome,
                                ));
                            }
                        }
                    }
                },
            }
            idx = idx + 1;
        }
        let ghost fin = state;
        proof {
            assert(decode_doc_rel(
                dl,
                idx as int,
                section as int,
                seen_section,
                fin,
                Ok::<StoryboardState, ParseStoryboardError>(fin),
            ));
            assert(decode_doc_rel(
                dl,
                start as int,
                0,
                false,
                s0,
                Ok::<StoryboardState, ParseStoryboardError>(fin),
            ));
        }
        let sb = state.finish();
        Ok(sb)
    }
}

/// The sixteen-bit units of a byte stream, low byte first when `le`; a
/// trailing lone byte is dropped.
pub open spec fn utf16_units(bytes: Seq<u8>, le: bool) -> Seq<u16> {
    Seq::new(
        (bytes.len() / 2) as nat,
        |i: int|
            if le {
                (bytes[2 * i] + 256 * bytes[2 * i + 1]) as u16
            } else {
                (bytes[2 * i + 1] + 256 * bytes[2 * i]) as u16
            },
    )
}

/// The scalar values read from sixteen-bit units: surrogate pairs combine,
/// and a lone surrogate becomes the replacement character.
pub open spec fn utf16_scalars(units: Seq<u16>) -> Seq<int>
    decreases units.len(),
{
    if units.len() == 0 {
        seq![]
    } else {
        let u = units[0] as int;
        if 0xD800 <= u <= 0xDBFF {
            if units.len() >= 2 && 0xDC00 <= units[1] <= 0xDFFF {
                seq![0x10000 + (u - 0xD800) * 0x400 + (units[1] - 0xDC00)] + utf16_scalars(
                    units.skip(2),
                )
            } else {
                seq![0xFFFD as int] + utf16_scalars(units.skip(1))
            }
        } else if 0xDC00 <= u <= 0xDFFF {
            seq![0xFFFD as int] + utf16_scalars(units.skip(1))
        } else {
            seq![u] + utf16_scalars(units.skip(1))
        }
    }
}

/// The bytes a scalar value is written as.
pub open spec fn utf8_of_scalar(c: int) -> Seq<u8> {
    if c < 0x80 {
        seq![c as u8]
    } else if c < 0x800 {
        seq![(192 + c / 64) as u8, (128 + c % 64) as u8]
    } else if c < 0x10000 {
        seq![(224 + c / 4096) as u8, (128 + (c / 64) % 64) as u8, (128 + c % 64) as u8]
    } else {
        seq![
            (240 + c / 262144) as u8,
            (128 + (c / 4096) % 64) as u8,
            (128 + (c / 64) % 64) as u8,
            (128 + c % 64) as u8,
        ]
    }
}

/// A scalar sequence written out byte by byte.
pub open spec fn utf8_encode(cs: Seq<int>) -> Seq<u8>
    decreases cs.len(),
{
    if cs.len() == 0 {
        seq![]
    } else {
        utf8_of_scalar(cs[0]) + utf8_encode(cs.drop_first())
    }
}

/// A whole sixteen-bit document re-written as eight-bit text.
pub open spec fn utf16_to_utf8(bytes: Seq<u8>, le: bool) -> Seq<u8> {
    utf8_encode(utf16_scalars(utf16_units(bytes, le)))
}

/// Append the bytes of one scalar value.
fn push_utf8(out: &mut Vec<u8>, c: u32)
    requires
        c <= 0x10FFFF,
    ensures
        final(out)@ == old(out)@ + utf8_of_scalar(c as int),
{
    if c < 0x80 {
        out.push(c as u8);
        proof {
            assert(out@ =~= old(out)@ + utf8_of_scalar(c as int));
        }
    } else if c < 0x800 {
        out.push(192 + (c / 64) as u8);
        out.push(128 + (c % 64) as u8);
        proof {
            assert(out@ =~= old(out)@ + utf8_of_scalar(c as int));
        }
    } else if c < 0x10000 {
        out.push(224 + (c / 4096) as u8);
        out.push(128 + ((c / 64) % 64) as u8);
        out.push(128 + (c % 64) as u8);
        proof {
            assert(out@ =~= old(out)@ + utf8_of_scalar(c as int));
        }
    } else {
        out.push(240 + (c / 262144) as u8);
        out.push(128 + ((c / 4096) % 64) as u8);
        out.push(128 + ((c / 64) % 64) as u8);
        out.push(128 + (c % 64) as u8);
        proof {
            assert(out@ =~= old(out)@ + utf8_of_scalar(c as int));
        }
    }
}

/// Re-write a sixteen-bit document as eight-bit text.
#[verifier::rlimit(100)]
fn transcode_utf16(bytes: &[u8], le: bool) -> (out: Vec<u8>)
    ensures
        out@ == utf16_to_utf8(bytes@, le),
{
    let ghost units = utf16_units(bytes@, le);
    let n_units = bytes.len() / 2;
    proof {
        assert(units.len() == n_units);
    }
    let mut out: Vec<u8> = Vec::new();
    let mut k: usize = 0;
    proof {
        assert(units.skip(0) =~= units);
        assert(out@ + utf8_encode(utf16_scalars(units)) =~= utf8_encode(utf16_scalars(units)));
    }
    while k < n_units
        invariant
            0 <= k <= n_units,
            n_units == units.len(),
            units == utf16_units(bytes@, le),
            n_units <= bytes@.len() / 2,
            bytes@.len() <= usize::MAX,
            out@ + utf8_encode(utf16_scalars(units.skip(k as int))) == utf8_encode(
                utf16_scalars(units),
            ),
        decreases n_units - k,
    {
        let b0 = bytes[2 * k];
        let b1 = bytes[2 * k + 1];
        let u: u32 = if le {
            (b0 as u32) + 256 * (b1 as u32)
        } else {
            (b1 as u32) + 256 * (b0 as u32)
        };
        proof {
            assert(units[k as int] as int == u as int);
            assert(units.skip(k as int)[0] == units[k as int]);
        }
        let ghost rem = units.skip(k as int);
        if 0xD800 <= u && u <= 0xDBFF {
            let mut paired: bool = false;
            let mut u2: u32 = 0;
            if k + 1 < n_units {
                let c0 = bytes[2 * (k + 1)];
                let c1 = bytes[2 * (k + 1) + 1];
                u2 = if le {
                    (c0 as u32) + 256 * (c1 as u32)
                } else {
                    (c1 as u32) + 256 * (c0 as u32)
                };
                proof {
                    assert(units[k + 1] as int == u2 as int);
                    assert(rem[1] == units[k + 1]);
                }
                if 0xDC00 <= u2 && u2 <= 0xDFFF {
                    paired = true;
                }
            }
            if paired {
                let c: u32 = 0x10000 + (u - 0xD800) * 0x400 + (u2 - 0xDC00);
                push_utf8(&mut out, c);
                proof {
                    assert(rem.skip(2) =~= units.skip(k + 2));
                    assert(utf16_scalars(rem) == seq![c as int] + utf16_scalars(
                        units.skip(k + 2),
                    ));
                    assert((seq![c as int] + utf16_scalars(units.skip(k + 2))).drop_first()
                        =~= utf16_scalars(units.skip(k + 2)));
                    assert(utf8_encode(utf16_scalars(rem)) == utf8_of_scalar(c as int)
                        + utf8_encode(utf16_scalars(units.skip(k + 2))));
                    vstd::seq_lib::lemma_concat_associative(
                        out@.subrange(0, out@.len() - utf8_of_scalar(c as int).len() as int),
                        utf8_of_scalar(c as int),
                        utf8_encode(utf16_scalars(units.skip(k + 2))),
                    );
                }
                k = k + 2;
            } else {
                push_utf8(&mut out, 0xFFFD);
                proof {
                    assert(rem.skip(1) =~= units.skip(k + 1));
                    assert(utf16_scalars(rem) == seq![0xFFFD as int] + utf16_scalars(
                        units.skip(k + 1),
                    ));
                    assert((seq![0xFFFD as int] + utf16_scalars(units.skip(k + 1))).drop_first()
                        =~= utf16_scalars(units.skip(k + 1)));
                    assert(utf8_encode(utf16_scalars(rem)) == utf8_of_scalar(0xFFFD)
                        + utf8_encode(utf16_scalars(units.skip(k + 1))));
                    vstd::seq_lib::lemma_concat_associative(
                        out@.subrange(0, out@.len() - utf8_of_scalar(0xFFFD).len() as int),
                        utf8_of_scalar(0xFFFD),
                        utf8_encode(utf16_scalars(units.skip(k + 1))),
                    );
                }
                k = k + 1;
            }
        } else {
            let c: u32 = if 0xDC00 <= u && u <= 0xDFFF {
                0xFFFD
            } else {
                u
            };
            push_utf8(&mut out, c);
            proof {
                assert(rem.skip(1) =~= units.skip(k + 1));
                assert(utf16_scalars(rem) == seq![c as int] + utf16_scalars(units.skip(k + 1)));
                assert((seq![c as int] + utf16_scalars(units.skip(k + 1))).drop_first()
                    =~= utf16_scalars(units.skip(k + 1)));
                assert(utf8_encode(utf16_scalars(rem)) == utf8_of_scalar(c as int) + utf8_encode(
                    utf16_scalars(units.skip(k + 1)),
                ));
                vstd::seq_lib::lemma_concat_associative(
                    out@.subrange(0, out@.len() - utf8_of_scalar(c as int).len() as int),
                    utf8_of_scalar(c as int),
                    utf8_encode(utf16_scalars(units.skip(k + 1))),
                );
            }
            k = k + 1;
        }
    }
    proof {
        assert(units.skip(n_units as int) =~= Seq::<u16>::empty());
        assert(out@ =~= out@ + utf8_encode(utf16_scalars(units.skip(n_units as int))));
    }
    out
}


} // verus!
