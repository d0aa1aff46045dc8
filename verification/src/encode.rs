//! The encoder: the mirror image of the decoder.
//!
//! Encoding walks a finished storyboard and emits the document text whose
//! decoding built it. Every omission rule inverts a defaulting rule of the
//! decoder: an end time equal to the start time is left out, and so is an
//! end value equal to the start value.

use vstd::prelude::*;

use crate::element::{StoryboardElement, StoryboardElementKind, StoryboardSprite};
use crate::num::{digits_seq, fmt_int, fmt_num, push_i32_text, push_u32_text, Num};
use crate::storyboard::{BreakPeriod, Storyboard};
use crate::timeline::TypedCommand;
use crate::timeline_group::CommandTimelineGroup;
use crate::visual::{easing_code, origins_code, origins_of_anchor, Color, Easing, Pos};
use vstd::string::StringSliceAdditionalSpecFns;

verus! {

/// `indent` spaces.
pub open spec fn spaces(indent: nat) -> Seq<u8>
    decreases indent,
{
    if indent == 0 {
        seq![]
    } else {
        spaces((indent - 1) as nat).push(32u8)
    }
}

/// The shared head of a command line: indentation, acronym, easing code,
/// start time, and the end time only when it differs from the start.
pub open spec fn fmt_prefix(indent: nat, acr: Seq<u8>, e: Easing, st: Num, et: Num) -> Seq<u8> {
    spaces(indent) + acr + seq![44u8] + digits_seq(easing_code(e)) + seq![44u8] + fmt_num(
        st.units as int,
    ) + seq![44u8] + (if et.units == st.units {
        seq![]
    } else {
        fmt_num(et.units as int)
    }) + seq![44u8]
}

/// A scalar command line: the end value only when it differs.
pub open spec fn fmt_scalar_cmd(indent: nat, acr: Seq<u8>, c: TypedCommand<Num>) -> Seq<u8> {
    fmt_prefix(indent, acr, c.easing, c.start_time, c.end_time) + fmt_num(c.start_value.units as int)
        + (if c.end_value.units == c.start_value.units {
        seq![]
    } else {
        seq![44u8] + fmt_num(c.end_value.units as int)
    }) + seq![10u8]
}

pub open spec fn fmt_scalar_cmds(indent: nat, acr: Seq<u8>, cs: Seq<TypedCommand<Num>>) -> Seq<u8>
    decreases cs.len(),
{
    if cs.len() == 0 {
        seq![]
    } else {
        fmt_scalar_cmds(indent, acr, cs.drop_last()) + fmt_scalar_cmd(indent, acr, cs.last())
    }
}

/// A vector-scale command line, each end component written only when one
/// differs.
pub open spec fn fmt_vector_cmd(indent: nat, c: TypedCommand<Pos>) -> Seq<u8> {
    fmt_prefix(indent, "V".spec_bytes(), c.easing, c.start_time, c.end_time) + fmt_num(
        c.start_value.x.units as int,
    ) + seq![44u8] + fmt_num(c.start_value.y.units as int) + (if c.end_value.x.units
        == c.start_value.x.units && c.end_value.y.units == c.start_value.y.units {
        seq![]
    } else {
        seq![44u8] + fmt_num(c.end_value.x.units as int) + seq![44u8] + fmt_num(
            c.end_value.y.units as int,
        )
    }) + seq![10u8]
}

pub open spec fn fmt_vector_cmds(indent: nat, cs: Seq<TypedCommand<Pos>>) -> Seq<u8>
    decreases cs.len(),
{
    if cs.len() == 0 {
        seq![]
    } else {
        fmt_vector_cmds(indent, cs.drop_last()) + fmt_vector_cmd(indent, cs.last())
    }
}

/// A colour command line, the end channels written only when one differs.
pub open spec fn fmt_color_cmd(indent: nat, c: TypedCommand<Color>) -> Seq<u8> {
    fmt_prefix(indent, "C".spec_bytes(), c.easing, c.start_time, c.end_time) + digits_seq(
        c.start_value.red as int,
    ) + seq![44u8] + digits_seq(c.start_value.green as int) + seq![44u8] + digits_seq(
        c.start_value.blue as int,
    ) + (if c.end_value.red == c.start_value.red && c.end_value.green == c.start_value.green
        && c.end_value.blue == c.start_value.blue {
        seq![]
    } else {
        seq![44u8] + digits_seq(c.end_value.red as int) + seq![44u8] + digits_seq(
            c.end_value.green as int,
        ) + seq![44u8] + digits_seq(c.end_value.blue as int)
    }) + seq![10u8]
}

pub open spec fn fmt_color_cmds(indent: nat, cs: Seq<TypedCommand<Color>>) -> Seq<u8>
    decreases cs.len(),
{
    if cs.len() == 0 {
        seq![]
    } else {
        fmt_color_cmds(indent, cs.drop_last()) + fmt_color_cmd(indent, cs.last())
    }
}

/// A parameter command line: only the sub-kind letter follows the head.
pub open spec fn fmt_param_cmd<T>(indent: nat, kind: u8, c: TypedCommand<T>) -> Seq<u8> {
    fmt_prefix(indent, "P".spec_bytes(), c.easing, c.start_time, c.end_time) + seq![kind] + seq![
        10u8,
    ]
}

pub open spec fn fmt_param_cmds<T>(indent: nat, kind: u8, cs: Seq<TypedCommand<T>>) -> Seq<u8>
    decreases cs.len(),
{
    if cs.len() == 0 {
        seq![]
    } else {
        fmt_param_cmds(indent, kind, cs.drop_last()) + fmt_param_cmd(indent, kind, cs.last())
    }
}

/// A whole group's commands in the fixed visiting order.
pub open spec fn fmt_group(indent: nat, g: CommandTimelineGroup) -> Seq<u8> {
    fmt_scalar_cmds(indent, "MX".spec_bytes(), g.x.commands@) + fmt_scalar_cmds(
        indent,
        "MY".spec_bytes(),
        g.y.commands@,
    ) + fmt_scalar_cmds(indent, "S".spec_bytes(), g.scale.commands@) + fmt_vector_cmds(
        indent,
        g.vector_scale.commands@,
    ) + fmt_scalar_cmds(indent, "R".spec_bytes(), g.rotation.commands@) + fmt_color_cmds(
        indent,
        g.color.commands@,
    ) + fmt_scalar_cmds(indent, "F".spec_bytes(), g.alpha.commands@) + fmt_param_cmds(
        indent,
        65u8,
        g.blending_parameters.commands@,
    ) + fmt_param_cmds(indent, 72u8, g.flip_h.commands@) + fmt_param_cmds(
        indent,
        86u8,
        g.flip_v.commands@,
    )
}

/// A loop header line.
pub open spec fn fmt_loop_header(l: crate::command_loop::CommandLoop) -> Seq<u8> {
    seq![32u8] + "L".spec_bytes() + seq![44u8] + fmt_num(l.loop_start_time.units as int) + seq![
        44u8,
    ] + digits_seq(l.total_iterations as int) + seq![10u8]
}

pub open spec fn fmt_loops(ls: Seq<crate::command_loop::CommandLoop>) -> Seq<u8>
    decreases ls.len(),
{
    if ls.len() == 0 {
        seq![]
    } else {
        fmt_loops(ls.drop_last()) + fmt_loop_header(ls.last()) + fmt_group(2, ls.last().group)
    }
}

/// A trigger header line: the window and group number are written from the
/// back only as far as they differ from their defaults.
pub open spec fn fmt_trigger_header(t: crate::command_trigger::CommandTrigger) -> Seq<u8> {
    let open_start = t.start_time.units <= -(crate::num::UNITS_CAP as int);
    let open_end = t.end_time.units >= crate::num::UNITS_CAP as int;
    seq![32u8] + "T".spec_bytes() + seq![44u8] + t.name@ + (if !open_start || !open_end
        || t.group_num != 0 {
        seq![44u8] + fmt_num(t.start_time.units as int)
    } else {
        seq![]
    }) + (if !open_end || t.group_num != 0 {
        seq![44u8] + fmt_num(t.end_time.units as int)
    } else {
        seq![]
    }) + (if t.group_num != 0 {
        seq![44u8] + fmt_int(t.group_num as int)
    } else {
        seq![]
    }) + seq![10u8]
}

pub open spec fn fmt_triggers(ts: Seq<crate::command_trigger::CommandTrigger>) -> Seq<u8>
    decreases ts.len(),
{
    if ts.len() == 0 {
        seq![]
    } else {
        fmt_triggers(ts.drop_last()) + fmt_trigger_header(ts.last()) + fmt_group(
            2,
            ts.last().group,
        )
    }
}

/// The body below a sprite or animation header: its own commands at depth
/// one, then its loops and triggers at depth two.
pub open spec fn fmt_sprite_body(s: StoryboardSprite) -> Seq<u8> {
    fmt_group(1, s.timeline_group) + fmt_loops(s.loops@) + fmt_triggers(s.triggers@)
}

/// The header of a sprite element in a legacy layer slot.
pub open spec fn fmt_sprite_header(slot: int, path: Seq<u8>, s: StoryboardSprite) -> Seq<u8> {
    digits_seq(4) + seq![44u8] + digits_seq(slot) + seq![44u8] + digits_seq(
        origins_code(origins_of_anchor(s.origin)),
    ) + seq![44u8, 34u8] + path + seq![34u8, 44u8] + fmt_num(s.initial_pos.x.units as int) + seq![
        44u8,
    ] + fmt_num(s.initial_pos.y.units as int) + seq![10u8]
}

/// The header of an animation element in a legacy layer slot.
pub open spec fn fmt_animation_header(
    slot: int,
    path: Seq<u8>,
    a: crate::element::StoryboardAnimation,
) -> Seq<u8> {
    digits_seq(6) + seq![44u8] + digits_seq(slot) + seq![44u8] + digits_seq(
        origins_code(origins_of_anchor(a.sprite.origin)),
    ) + seq![44u8, 34u8] + path + seq![34u8, 44u8] + fmt_num(a.sprite.initial_pos.x.units as int)
        + seq![44u8] + fmt_num(a.sprite.initial_pos.y.units as int) + seq![44u8] + fmt_int(
        a.frame_count as int,
    ) + seq![44u8] + fmt_num(a.frame_delay.units as int) + seq![44u8] + digits_seq(
        if a.loop_kind is LoopOnce {
            1
        } else {
            0
        },
    ) + seq![10u8]
}

/// One element of a legacy layer: only sprites and animations are written.
pub open spec fn fmt_layer_elem(slot: int, e: StoryboardElement) -> Seq<u8> {
    match e.kind {
        StoryboardElementKind::Sprite(s) => fmt_sprite_header(slot, e.path@, s)
            + fmt_sprite_body(s),
        StoryboardElementKind::Animation(a) => fmt_animation_header(slot, e.path@, a)
            + fmt_sprite_body(a.sprite),
        StoryboardElementKind::Sample(_) => seq![],
        StoryboardElementKind::Video(_) => seq![],
    }
}

pub open spec fn fmt_layer_elems(slot: int, es: Seq<StoryboardElement>) -> Seq<u8>
    decreases es.len(),
{
    if es.len() == 0 {
        seq![]
    } else {
        fmt_layer_elems(slot, es.drop_last()) + fmt_layer_elem(slot, es.last())
    }
}

/// The integer slot of a legacy layer name, or `-1` when the layer has no
/// textual form.
pub open spec fn layer_slot(name: Seq<u8>) -> int {
    if name == "Background".spec_bytes() {
        0
    } else if name == "Fail".spec_bytes() {
        1
    } else if name == "Pass".spec_bytes() {
        2
    } else if name == "Foreground".spec_bytes() {
        3
    } else {
        -1
    }
}

pub open spec fn fmt_layers(ls: Seq<crate::layer::StoryboardLayer>) -> Seq<u8>
    decreases ls.len(),
{
    if ls.len() == 0 {
        seq![]
    } else {
        fmt_layers(ls.drop_last()) + (if layer_slot(ls.last().name@) >= 0 {
            fmt_layer_elems(layer_slot(ls.last().name@), ls.last().elements@)
        } else {
            seq![]
        })
    }
}

/// One sound sample line of a legacy layer.
pub open spec fn fmt_sample_elem(slot: int, e: StoryboardElement) -> Seq<u8> {
    match e.kind {
        StoryboardElementKind::Sample(sm) => digits_seq(5) + seq![44u8] + fmt_num(
            sm.start_time.units as int,
        ) + seq![44u8] + digits_seq(slot) + seq![44u8, 34u8] + e.path@ + seq![34u8, 44u8]
            + fmt_int(sm.volume as int) + seq![10u8],
        _ => seq![],
    }
}

pub open spec fn fmt_sample_elems(slot: int, es: Seq<StoryboardElement>) -> Seq<u8>
    decreases es.len(),
{
    if es.len() == 0 {
        seq![]
    } else {
        fmt_sample_elems(slot, es.drop_last()) + fmt_sample_elem(slot, es.last())
    }
}

pub open spec fn fmt_samples(ls: Seq<crate::layer::StoryboardLayer>) -> Seq<u8>
    decreases ls.len(),
{
    if ls.len() == 0 {
        seq![]
    } else {
        fmt_samples(ls.drop_last()) + (if layer_slot(ls.last().name@) >= 0 {
            fmt_sample_elems(layer_slot(ls.last().name@), ls.last().elements@)
        } else {
            seq![]
        })
    }
}

/// One video line.
pub open spec fn fmt_video_elem(e: StoryboardElement) -> Seq<u8> {
    match e.kind {
        StoryboardElementKind::Video(v) => digits_seq(1) + seq![44u8] + fmt_num(
            v.start_time.units as int,
        ) + seq![44u8, 34u8] + e.path@ + seq![34u8, 10u8],
        _ => seq![],
    }
}

pub open spec fn fmt_video_elems(es: Seq<StoryboardElement>) -> Seq<u8>
    decreases es.len(),
{
    if es.len() == 0 {
        seq![]
    } else {
        fmt_video_elems(es.drop_last()) + fmt_video_elem(es.last())
    }
}

pub open spec fn fmt_videos(ls: Seq<crate::layer::StoryboardLayer>) -> Seq<u8>
    decreases ls.len(),
{
    if ls.len() == 0 {
        seq![]
    } else {
        fmt_videos(ls.drop_last()) + fmt_video_elems(ls.last().elements@)
    }
}

pub open spec fn fmt_breaks(bs: Seq<BreakPeriod>) -> Seq<u8>
    decreases bs.len(),
{
    if bs.len() == 0 {
        seq![]
    } else {
        fmt_breaks(bs.drop_last()) + digits_seq(2) + seq![44u8] + fmt_num(
            bs.last().start_time.units as int,
        ) + seq![44u8] + fmt_num(bs.last().end_time.units as int) + seq![10u8]
    }
}

/// The whole document the encoder writes for a storyboard.
pub open spec fn fmt_document(sb: Storyboard) -> Seq<u8> {
    "osu file format v".spec_bytes() + fmt_int(sb.format_version as int) + seq![10u8, 10u8]
        + "[General]".spec_bytes() + seq![10u8] + "UseSkinSprites: ".spec_bytes() + (if sb.use_skin_sprites {
        "1".spec_bytes()
    } else {
        "0".spec_bytes()
    }) + seq![10u8, 10u8] + "[Events]".spec_bytes() + seq![10u8]
        + "//Background and Video events".spec_bytes() + seq![10u8] + (if sb.background_file@.len()
        > 0 {
        digits_seq(0) + seq![44u8] + digits_seq(0) + seq![44u8, 34u8] + sb.background_file@
            + seq![34u8, 44u8] + digits_seq(0) + seq![44u8] + digits_seq(0) + seq![10u8]
    } else {
        seq![]
    }) + fmt_videos(sb.layers@) + "//Break Periods".spec_bytes() + seq![10u8] + fmt_breaks(
        sb.breaks@,
    ) + "//Storyboard layers".spec_bytes() + seq![10u8] + fmt_layers(sb.layers@)
        + "//Storyboard Sound Samples".spec_bytes() + seq![10u8] + fmt_samples(sb.layers@)
}

/// Append one byte.
fn push_byte(out: &mut Vec<u8>, b: u8)
    ensures
        final(out)@ == old(out)@ + seq![b],
{
    out.push(b);
    proof {
        assert(out@ =~= old(out)@ + seq![b]);
    }
}

/// Append `indent` spaces.
fn push_spaces(out: &mut Vec<u8>, indent: usize)
    requires
        indent <= 2,
    ensures
        final(out)@ == old(out)@ + spaces(indent as nat),
{
    proof {
        assert(spaces(0) =~= Seq::<u8>::empty());
        assert(spaces(1) =~= seq![32u8]);
        assert(spaces(2) =~= seq![32u8, 32u8]);
    }
    if indent == 1 {
        push_byte(out, 32);
        proof {
            assert(out@ =~= old(out)@ + spaces(1));
        }
    } else if indent == 2 {
        push_byte(out, 32);
        push_byte(out, 32);
        proof {
            assert(out@ =~= old(out)@ + spaces(2));
        }
    } else {
        proof {
            assert(out@ =~= old(out)@ + spaces(0));
        }
    }
}

/// Append a byte-string literal.
fn push_lit(out: &mut Vec<u8>, lit: &[u8])
    ensures
        final(out)@ == old(out)@ + lit@,
{
    out.extend_from_slice(lit);
}

/// Append the shared head of a command line.
#[verifier::rlimit(100)]
fn push_prefix(out: &mut Vec<u8>, indent: usize, acr: &[u8], e: Easing, st: Num, et: Num)
    requires
        indent <= 2,
        st.bounded(),
        et.bounded(),
    ensures
        final(out)@ == old(out)@ + fmt_prefix(indent as nat, acr@, e, st, et),
{
    push_spaces(out, indent);
    push_lit(out, acr);
    push_byte(out, 44);
    push_u32_text(out, e.code() as u32);
    push_byte(out, 44);
    st.push_text(out);
    push_byte(out, 44);
    if et.units != st.units {
        et.push_text(out);
    }
    push_byte(out, 44);
    proof {
        assert(out@ =~= old(out)@ + fmt_prefix(indent as nat, acr@, e, st, et));
    }
}

/// Append every command of a scalar timeline.
#[verifier::rlimit(100)]
fn push_scalar_cmds(out: &mut Vec<u8>, indent: usize, acr: &[u8], cs: &Vec<TypedCommand<Num>>)
    requires
        indent <= 2,
        forall|i: int|
            0 <= i < cs@.len() ==> (#[trigger] cs@[i]).start_time.bounded()
                && cs@[i].end_time.bounded() && cs@[i].start_value.bounded()
                && cs@[i].end_value.bounded(),
    ensures
        final(out)@ == old(out)@ + fmt_scalar_cmds(indent as nat, acr@, cs@),
{
    let n = cs.len();
    let mut i: usize = 0;
    proof {
        assert(out@ =~= old(out)@ + fmt_scalar_cmds(indent as nat, acr@, cs@.take(0)));
    }
    while i < n
        invariant
            0 <= i <= n,
            n == cs@.len(),
            indent <= 2,
            forall|k: int|
                0 <= k < cs@.len() ==> (#[trigger] cs@[k]).start_time.bounded()
                    && cs@[k].end_time.bounded() && cs@[k].start_value.bounded()
                    && cs@[k].end_value.bounded(),
            out@ == old(out)@ + fmt_scalar_cmds(indent as nat, acr@, cs@.take(i as int)),
        decreases n - i,
    {
        let c = cs[i];
        push_prefix(out, indent, acr, c.easing, c.start_time, c.end_time);
        c.start_value.push_text(out);
        if c.end_value.units != c.start_value.units {
            push_byte(out, 44);
            c.end_value.push_text(out);
        }
        push_byte(out, 10);
        proof {
            assert(cs@.take(i + 1).drop_last() =~= cs@.take(i as int));
            assert(cs@.take(i + 1).last() == cs@[i as int]);
            assert(out@ =~= old(out)@ + fmt_scalar_cmds(indent as nat, acr@, cs@.take(i + 1)));
        }
        i = i + 1;
    }
    proof {
        assert(cs@.take(n as int) =~= cs@);
    }
}

/// Append every command of the vector-scale timeline.
#[verifier::rlimit(100)]
fn push_vector_cmds(out: &mut Vec<u8>, indent: usize, cs: &Vec<TypedCommand<Pos>>)
    requires
        indent <= 2,
        forall|i: int|
            0 <= i < cs@.len() ==> (#[trigger] cs@[i]).start_time.bounded()
                && cs@[i].end_time.bounded() && cs@[i].start_value.x.bounded()
                && cs@[i].start_value.y.bounded() && cs@[i].end_value.x.bounded()
                && cs@[i].end_value.y.bounded(),
    ensures
        final(out)@ == old(out)@ + fmt_vector_cmds(indent as nat, cs@),
{
    let n = cs.len();
    let mut i: usize = 0;
    proof {
        assert(out@ =~= old(out)@ + fmt_vector_cmds(indent as nat, cs@.take(0)));
    }
    while i < n
        invariant
            0 <= i <= n,
            n == cs@.len(),
            indent <= 2,
            forall|k: int|
                0 <= k < cs@.len() ==> (#[trigger] cs@[k]).start_time.bounded()
                    && cs@[k].end_time.bounded() && cs@[k].start_value.x.bounded()
                    && cs@[k].start_value.y.bounded() && cs@[k].end_value.x.bounded()
                    && cs@[k].end_value.y.bounded(),
            out@ == old(out)@ + fmt_vector_cmds(indent as nat, cs@.take(i as int)),
        decreases n - i,
    {
        let c = cs[i];
        push_prefix(out, indent, "V".as_bytes(), c.easing, c.start_time, c.end_time);
        c.start_value.x.push_text(out);
        push_byte(out, 44);
        c.start_value.y.push_text(out);
        if !(c.end_value.x.units == c.start_value.x.units && c.end_value.y.units
            == c.start_value.y.units) {
            push_byte(out, 44);
            c.end_value.x.push_text(out);
            push_byte(out, 44);
            c.end_value.y.push_text(out);
        }
        push_byte(out, 10);
        proof {
            assert(cs@.take(i + 1).drop_last() =~= cs@.take(i as int));
            assert(cs@.take(i + 1).last() == cs@[i as int]);
            assert(out@ =~= old(out)@ + fmt_vector_cmds(indent as nat, cs@.take(i + 1)));
        }
        i = i + 1;
    }
    proof {
        assert(cs@.take(n as int) =~= cs@);
    }
}

/// Append every command of the colour timeline.
#[verifier::rlimit(100)]
fn push_color_cmds(out: &mut Vec<u8>, indent: usize, cs: &Vec<TypedCommand<Color>>)
    requires
        indent <= 2,
        forall|i: int|
            0 <= i < cs@.len() ==> (#[trigger] cs@[i]).start_time.bounded()
                && cs@[i].end_time.bounded(),
    ensures
        final(out)@ == old(out)@ + fmt_color_cmds(indent as nat, cs@),
{
    let n = cs.len();
    let mut i: usize = 0;
    proof {
        assert(out@ =~= old(out)@ + fmt_color_cmds(indent as nat, cs@.take(0)));
    }
    while i < n
        invariant
            0 <= i <= n,
            n == cs@.len(),
            indent <= 2,
            forall|k: int|
                0 <= k < cs@.len() ==> (#[trigger] cs@[k]).start_time.bounded()
                    && cs@[k].end_time.bounded(),
            out@ == old(out)@ + fmt_color_cmds(indent as nat, cs@.take(i as int)),
        decreases n - i,
    {
        let ghost base = out@;
        let c = cs[i];
        push_prefix(out, indent, "C".as_bytes(), c.easing, c.start_time, c.end_time);
        push_u32_text(out, c.start_value.red as u32);
        push_byte(out, 44);
        push_u32_text(out, c.start_value.green as u32);
        push_byte(out, 44);
        push_u32_text(out, c.start_value.blue as u32);
        if !(c.end_value.red == c.start_value.red && c.end_value.green == c.start_value.green
            && c.end_value.blue == c.start_value.blue) {
            push_byte(out, 44);
            push_u32_text(out, c.end_value.red as u32);
            push_byte(out, 44);
            push_u32_text(out, c.end_value.green as u32);
            push_byte(out, 44);
            push_u32_text(out, c.end_value.blue as u32);
        }
        push_byte(out, 10);
        proof {
            assert(out@ =~= base + fmt_color_cmd(indent as nat, c));
            assert(cs@.take(i + 1).drop_last() =~= cs@.take(i as int));
            assert(cs@.take(i + 1).last() == cs@[i as int]);
            vstd::seq_lib::lemma_concat_associative(
                old(out)@,
                fmt_color_cmds(indent as nat, cs@.take(i as int)),
                fmt_color_cmd(indent as nat, c),
            );
        }
        i = i + 1;
    }
    proof {
        assert(cs@.take(n as int) =~= cs@);
    }
}

/// Append every command of a parameter timeline under its sub-kind letter.
#[verifier::rlimit(100)]
fn push_param_cmds<T: Copy>(out: &mut Vec<u8>, indent: usize, kind: u8, cs: &Vec<TypedCommand<T>>)
    requires
        indent <= 2,
        forall|i: int|
            0 <= i < cs@.len() ==> (#[trigger] cs@[i]).start_time.bounded()
                && cs@[i].end_time.bounded(),
    ensures
        final(out)@ == old(out)@ + fmt_param_cmds(indent as nat, kind, cs@),
{
    let n = cs.len();
    let mut i: usize = 0;
    proof {
        assert(out@ =~= old(out)@ + fmt_param_cmds(indent as nat, kind, cs@.take(0)));
    }
    while i < n
        invariant
            0 <= i <= n,
            n == cs@.len(),
            indent <= 2,
            forall|k: int|
                0 <= k < cs@.len() ==> (#[trigger] cs@[k]).start_time.bounded()
                    && cs@[k].end_time.bounded(),
            out@ == old(out)@ + fmt_param_cmds(indent as nat, kind, cs@.take(i as int)),
        decreases n - i,
    {
        let c = &cs[i];
        push_prefix(out, indent, "P".as_bytes(), c.easing, c.start_time, c.end_time);
        push_byte(out, kind);
        push_byte(out, 10);
        proof {
            assert(cs@.take(i + 1).drop_last() =~= cs@.take(i as int));
            assert(cs@.take(i + 1).last() == cs@[i as int]);
            assert(out@ =~= old(out)@ + fmt_param_cmds(indent as nat, kind, cs@.take(i + 1)));
        }
        i = i + 1;
    }
    proof {
        assert(cs@.take(n as int) =~= cs@);
    }
}

/// Append a whole group's commands in the fixed visiting order.
#[verifier::rlimit(100)]
fn push_group(out: &mut Vec<u8>, indent: usize, g: &CommandTimelineGroup)
    requires
        indent <= 2,
        g.inv(),
    ensures
        final(out)@ == old(out)@ + fmt_group(indent as nat, *g),
{
    let ghost a0 = out@;
    let ghost ind = indent as nat;
    push_scalar_cmds(out, indent, "MX".as_bytes(), &g.x.commands);
    push_scalar_cmds(out, indent, "MY".as_bytes(), &g.y.commands);
    push_scalar_cmds(out, indent, "S".as_bytes(), &g.scale.commands);
    push_vector_cmds(out, indent, &g.vector_scale.commands);
    push_scalar_cmds(out, indent, "R".as_bytes(), &g.rotation.commands);
    push_color_cmds(out, indent, &g.color.commands);
    push_scalar_cmds(out, indent, "F".as_bytes(), &g.alpha.commands);
    push_param_cmds(out, indent, 65, &g.blending_parameters.commands);
    push_param_cmds(out, indent, 72, &g.flip_h.commands);
    push_param_cmds(out, indent, 86, &g.flip_v.commands);
    proof {
        let p1 = fmt_scalar_cmds(ind, "MX".spec_bytes(), g.x.commands@);
        let p2 = fmt_scalar_cmds(ind, "MY".spec_bytes(), g.y.commands@);
        let p3 = fmt_scalar_cmds(ind, "S".spec_bytes(), g.scale.commands@);
        let p4 = fmt_vector_cmds(ind, g.vector_scale.commands@);
        let p5 = fmt_scalar_cmds(ind, "R".spec_bytes(), g.rotation.commands@);
        let p6 = fmt_color_cmds(ind, g.color.commands@);
        let p7 = fmt_scalar_cmds(ind, "F".spec_bytes(), g.alpha.commands@);
        let p8 = fmt_param_cmds(ind, 65u8, g.blending_parameters.commands@);
        let p9 = fmt_param_cmds(ind, 72u8, g.flip_h.commands@);
        let p10 = fmt_param_cmds(ind, 86u8, g.flip_v.commands@);
        vstd::seq_lib::lemma_concat_associative(a0, p1, p2);
        vstd::seq_lib::lemma_concat_associative(a0, p1 + p2, p3);
        vstd::seq_lib::lemma_concat_associative(a0, p1 + p2 + p3, p4);
        vstd::seq_lib::lemma_concat_associative(a0, p1 + p2 + p3 + p4, p5);
        vstd::seq_lib::lemma_concat_associative(a0, p1 + p2 + p3 + p4 + p5, p6);
        vstd::seq_lib::lemma_concat_associative(a0, p1 + p2 + p3 + p4 + p5 + p6, p7);
        vstd::seq_lib::lemma_concat_associative(a0, p1 + p2 + p3 + p4 + p5 + p6 + p7, p8);
        vstd::seq_lib::lemma_concat_associative(
            a0,
            p1 + p2 + p3 + p4 + p5 + p6 + p7 + p8,
            p9,
        );
        vstd::seq_lib::lemma_concat_associative(
            a0,
            p1 + p2 + p3 + p4 + p5 + p6 + p7 + p8 + p9,
            p10,
        );
    }
}

/// Append every loop of a sprite: header line, then its group at depth two.
#[verifier::rlimit(100)]
fn push_loops(out: &mut Vec<u8>, ls: &Vec<crate::command_loop::CommandLoop>)
    requires
        forall|i: int| 0 <= i < ls@.len() ==> (#[trigger] ls@[i]).inv(),
    ensures
        final(out)@ == old(out)@ + fmt_loops(ls@),
{
    let n = ls.len();
    let mut i: usize = 0;
    proof {
        assert(out@ =~= old(out)@ + fmt_loops(ls@.take(0)));
    }
    while i < n
        invariant
            0 <= i <= n,
            n == ls@.len(),
            forall|k: int| 0 <= k < ls@.len() ==> (#[trigger] ls@[k]).inv(),
            out@ == old(out)@ + fmt_loops(ls@.take(i as int)),
        decreases n - i,
    {
        let l = &ls[i];
        push_byte(out, 32);
        push_lit(out, "L".as_bytes());
        push_byte(out, 44);
        l.loop_start_time.push_text(out);
        push_byte(out, 44);
        push_u32_text(out, l.total_iterations);
        push_byte(out, 10);
        proof {
            assert(out@ =~= old(out)@ + fmt_loops(ls@.take(i as int)) + fmt_loop_header(
                ls@[i as int],
            ));
        }
        push_group(out, 2, &l.group);
        proof {
            let fpart = fmt_loops(ls@.take(i as int));
            let hpart = fmt_loop_header(ls@[i as int]);
            let gpart = fmt_group(2, ls@[i as int].group);
            vstd::seq_lib::lemma_concat_associative(old(out)@, fpart, hpart);
            vstd::seq_lib::lemma_concat_associative(old(out)@, fpart + hpart, gpart);
            assert(ls@.take(i + 1).drop_last() =~= ls@.take(i as int));
            assert(ls@.take(i + 1).last() == ls@[i as int]);
        }
        i = i + 1;
    }
    proof {
        assert(ls@.take(n as int) =~= ls@);
    }
}

/// Append a trigger's header line.
#[verifier::rlimit(100)]
fn push_trigger_header(out: &mut Vec<u8>, t: &crate::command_trigger::CommandTrigger)
    requires
        t.start_time.bounded(),
        t.end_time.bounded(),
    ensures
        final(out)@ == old(out)@ + fmt_trigger_header(*t),
{
    push_byte(out, 32);
    push_lit(out, "T".as_bytes());
    push_byte(out, 44);
    push_lit(out, t.name.as_slice());
    let open_start: bool = t.start_time.units <= -crate::num::UNITS_CAP;
    let open_end: bool = t.end_time.units >= crate::num::UNITS_CAP;
    if !open_start || !open_end || t.group_num != 0 {
        push_byte(out, 44);
        t.start_time.push_text(out);
    }
    if !open_end || t.group_num != 0 {
        push_byte(out, 44);
        t.end_time.push_text(out);
    }
    if t.group_num != 0 {
        push_byte(out, 44);
        push_i32_text(out, t.group_num);
    }
    push_byte(out, 10);
    proof {
        assert(out@ =~= old(out)@ + fmt_trigger_header(*t));
    }
}

/// Append every trigger of a sprite: header line, then its group at depth
/// two.
#[verifier::rlimit(100)]
fn push_triggers(out: &mut Vec<u8>, ts: &Vec<crate::command_trigger::CommandTrigger>)
    requires
        forall|i: int| 0 <= i < ts@.len() ==> (#[trigger] ts@[i]).inv(),
    ensures
        final(out)@ == old(out)@ + fmt_triggers(ts@),
{
    let n = ts.len();
    let mut i: usize = 0;
    proof {
        assert(out@ =~= old(out)@ + fmt_triggers(ts@.take(0)));
    }
    while i < n
        invariant
            0 <= i <= n,
            n == ts@.len(),
            forall|k: int| 0 <= k < ts@.len() ==> (#[trigger] ts@[k]).inv(),
            out@ == old(out)@ + fmt_triggers(ts@.take(i as int)),
        decreases n - i,
    {
        let t = &ts[i];
        push_trigger_header(out, t);
        push_group(out, 2, &t.group);
        proof {
            let fpart = fmt_triggers(ts@.take(i as int));
            let hpart = fmt_trigger_header(ts@[i as int]);
            let gpart = fmt_group(2, ts@[i as int].group);
            vstd::seq_lib::lemma_concat_associative(old(out)@, fpart, hpart);
            vstd::seq_lib::lemma_concat_associative(old(out)@, fpart + hpart, gpart);
            assert(ts@.take(i + 1).drop_last() =~= ts@.take(i as int));
            assert(ts@.take(i + 1).last() == ts@[i as int]);
        }
        i = i + 1;
    }
    proof {
        assert(ts@.take(n as int) =~= ts@);
    }
}

/// Append a sprite's header line.
#[verifier::rlimit(100)]
fn push_sprite_header(out: &mut Vec<u8>, slot: u8, path: &Vec<u8>, s: &StoryboardSprite)
    requires
        slot <= 3,
        s.initial_pos.x.bounded(),
        s.initial_pos.y.bounded(),
    ensures
        final(out)@ == old(out)@ + fmt_sprite_header(slot as int, path@, *s),
{
    push_u32_text(out, 4);
    push_byte(out, 44);
    push_u32_text(out, slot as u32);
    push_byte(out, 44);
    push_u32_text(out, crate::visual::Origins::from_anchor(s.origin).code() as u32);
    push_byte(out, 44);
    push_byte(out, 34);
    push_lit(out, path.as_slice());
    push_byte(out, 34);
    push_byte(out, 44);
    s.initial_pos.x.push_text(out);
    push_byte(out, 44);
    s.initial_pos.y.push_text(out);
    push_byte(out, 10);
    proof {
        assert(out@ =~= old(out)@ + fmt_sprite_header(slot as int, path@, *s));
    }
}

/// Append an animation's header line.
#[verifier::rlimit(100)]
fn push_animation_header(
    out: &mut Vec<u8>,
    slot: u8,
    path: &Vec<u8>,
    a: &crate::element::StoryboardAnimation,
)
    requires
        slot <= 3,
        a.sprite.initial_pos.x.bounded(),
        a.sprite.initial_pos.y.bounded(),
        a.frame_delay.bounded(),
    ensures
        final(out)@ == old(out)@ + fmt_animation_header(slot as int, path@, *a),
{
    push_u32_text(out, 6);
    push_byte(out, 44);
    push_u32_text(out, slot as u32);
    push_byte(out, 44);
    push_u32_text(out, crate::visual::Origins::from_anchor(a.sprite.origin).code() as u32);
    push_byte(out, 44);
    push_byte(out, 34);
    push_lit(out, path.as_slice());
    push_byte(out, 34);
    push_byte(out, 44);
    a.sprite.initial_pos.x.push_text(out);
    push_byte(out, 44);
    a.sprite.initial_pos.y.push_text(out);
    push_byte(out, 44);
    push_i32_text(out, a.frame_count);
    push_byte(out, 44);
    a.frame_delay.push_text(out);
    push_byte(out, 44);
    push_u32_text(out, a.loop_kind.code() as u32);
    push_byte(out, 10);
    proof {
        assert(out@ =~= old(out)@ + fmt_animation_header(slot as int, path@, *a));
    }
}

/// Append one element of a legacy layer: a sprite or animation header and
/// its body; samples and videos are left to their own sections.
#[verifier::rlimit(100)]
fn push_layer_elem(out: &mut Vec<u8>, slot: u8, e: &StoryboardElement)
    requires
        slot <= 3,
        e.inv(),
    ensures
        final(out)@ == old(out)@ + fmt_layer_elem(slot as int, *e),
{
    match &e.kind {
        StoryboardElementKind::Sprite(s) => {
            push_sprite_header(out, slot, &e.path, s);
            push_group(out, 1, &s.timeline_group);
            push_loops(out, &s.loops);
            push_triggers(out, &s.triggers);
            proof {
                let hp = fmt_sprite_header(slot as int, e.path@, *s);
                let gp = fmt_group(1, s.timeline_group);
                let lp = fmt_loops(s.loops@);
                let tp = fmt_triggers(s.triggers@);
                vstd::seq_lib::lemma_concat_associative(old(out)@, hp, gp);
                vstd::seq_lib::lemma_concat_associative(old(out)@, hp + gp, lp);
                vstd::seq_lib::lemma_concat_associative(old(out)@, hp + gp + lp, tp);
                vstd::seq_lib::lemma_concat_associative(hp, gp, lp);
                vstd::seq_lib::lemma_concat_associative(hp, gp + lp, tp);
            }
        },
        StoryboardElementKind::Animation(a) => {
            push_animation_header(out, slot, &e.path, a);
            push_group(out, 1, &a.sprite.timeline_group);
            push_loops(out, &a.sprite.loops);
            push_triggers(out, &a.sprite.triggers);
            proof {
                let hp = fmt_animation_header(slot as int, e.path@, *a);
                let gp = fmt_group(1, a.sprite.timeline_group);
                let lp = fmt_loops(a.sprite.loops@);
                let tp = fmt_triggers(a.sprite.triggers@);
                vstd::seq_lib::lemma_concat_associative(old(out)@, hp, gp);
                vstd::seq_lib::lemma_concat_associative(old(out)@, hp + gp, lp);
                vstd::seq_lib::lemma_concat_associative(old(out)@, hp + gp + lp, tp);
                vstd::seq_lib::lemma_concat_associative(hp, gp, lp);
                vstd::seq_lib::lemma_concat_associative(hp, gp + lp, tp);
            }
        },
        StoryboardElementKind::Sample(_) => {
            proof {
                assert(out@ =~= old(out)@ + fmt_layer_elem(slot as int, *e));
            }
        },
        StoryboardElementKind::Video(_) => {
            proof {
                assert(out@ =~= old(out)@ + fmt_layer_elem(slot as int, *e));
            }
        },
    }
}

/// The legacy slot of a layer name, when it has one.
fn layer_slot_exec(name: &[u8]) -> (r: Option<u8>)
    ensures
        match r {
            Some(v) => v <= 3 && v as int == layer_slot(name@),
            None => layer_slot(name@) == -1,
        },
{
    if crate::text::bytes_eq(name, "Background".as_bytes()) {
        Some(0)
    } else if crate::text::bytes_eq(name, "Fail".as_bytes()) {
        Some(1)
    } else if crate::text::bytes_eq(name, "Pass".as_bytes()) {
        Some(2)
    } else if crate::text::bytes_eq(name, "Foreground".as_bytes()) {
        Some(3)
    } else {
        None
    }
}

/// Append the sprite and animation blocks of every legacy layer.
#[verifier::rlimit(100)]
fn push_layers(out: &mut Vec<u8>, ls: &Vec<crate::layer::StoryboardLayer>)
    requires
        forall|i: int| 0 <= i < ls@.len() ==> (#[trigger] ls@[i]).inv(),
    ensures
        final(out)@ == old(out)@ + fmt_layers(ls@),
{
    let n = ls.len();
    let mut i: usize = 0;
    proof {
        assert(out@ =~= old(out)@ + fmt_layers(ls@.take(0)));
    }
    while i < n
        invariant
            0 <= i <= n,
            n == ls@.len(),
            forall|k: int| 0 <= k < ls@.len() ==> (#[trigger] ls@[k]).inv(),
            out@ == old(out)@ + fmt_layers(ls@.take(i as int)),
        decreases n - i,
    {
        let layer = &ls[i];
        match layer_slot_exec(layer.name.as_slice()) {
            Some(slot) => {
                let en = layer.elements.len();
                let mut j: usize = 0;
                proof {
                    assert(out@ =~= old(out)@ + fmt_layers(ls@.take(i as int)) + fmt_layer_elems(
                        slot as int,
                        layer.elements@.take(0),
                    ));
                }
                while j < en
                    invariant
                        0 <= j <= en,
                        0 <= i < n,
                        n == ls@.len(),
                        layer == &ls@[i as int],
                        en == layer.elements@.len(),
                        slot <= 3,
                        slot as int == layer_slot(layer.name@),
                        forall|k: int| 0 <= k < ls@.len() ==> (#[trigger] ls@[k]).inv(),
                        out@ == old(out)@ + fmt_layers(ls@.take(i as int)) + fmt_layer_elems(
                            slot as int,
                            layer.elements@.take(j as int),
                        ),
                    decreases en - j,
                {
                    push_layer_elem(out, slot, &layer.elements[j]);
                    proof {
                        assert(layer.elements@.take(j + 1).drop_last() =~= layer.elements@.take(
                            j as int,
                        ));
                        assert(layer.elements@.take(j + 1).last() == layer.elements@[j as int]);
                        vstd::seq_lib::lemma_concat_associative(
                            old(out)@ + fmt_layers(ls@.take(i as int)),
                            fmt_layer_elems(slot as int, layer.elements@.take(j as int)),
                            fmt_layer_elem(slot as int, layer.elements@[j as int]),
                        );
                    }
                    j = j + 1;
                }
                proof {
                    assert(layer.elements@.take(en as int) =~= layer.elements@);
                    assert(ls@.take(i + 1).drop_last() =~= ls@.take(i as int));
                    assert(ls@.take(i + 1).last() == ls@[i as int]);
                    assert(out@ =~= old(out)@ + fmt_layers(ls@.take(i + 1)));
                }
            },
            None => {
                proof {
                    assert(ls@.take(i + 1).drop_last() =~= ls@.take(i as int));
                    assert(ls@.take(i + 1).last() == ls@[i as int]);
                    assert(out@ =~= old(out)@ + fmt_layers(ls@.take(i + 1)));
                }
            },
        }
        i = i + 1;
    }
    proof {
        assert(ls@.take(n as int) =~= ls@);
    }
}

/// Append the sound sample lines of every legacy layer.
#[verifier::rlimit(100)]
fn push_samples(out: &mut Vec<u8>, ls: &Vec<crate::layer::StoryboardLayer>)
    requires
        forall|i: int| 0 <= i < ls@.len() ==> (#[trigger] ls@[i]).inv(),
    ensures
        final(out)@ == old(out)@ + fmt_samples(ls@),
{
    let n = ls.len();
    let mut i: usize = 0;
    proof {
        assert(out@ =~= old(out)@ + fmt_samples(ls@.take(0)));
    }
    while i < n
        invariant
            0 <= i <= n,
            n == ls@.len(),
            forall|k: int| 0 <= k < ls@.len() ==> (#[trigger] ls@[k]).inv(),
            out@ == old(out)@ + fmt_samples(ls@.take(i as int)),
        decreases n - i,
    {
        let layer = &ls[i];
        match layer_slot_exec(layer.name.as_slice()) {
            Some(slot) => {
                let en = layer.elements.len();
                let mut j: usize = 0;
                proof {
                    assert(out@ =~= old(out)@ + fmt_samples(ls@.take(i as int))
                        + fmt_sample_elems(slot as int, layer.elements@.take(0)));
                }
                while j < en
                    invariant
                        0 <= j <= en,
                        0 <= i < n,
                        n == ls@.len(),
                        layer == &ls@[i as int],
                        en == layer.elements@.len(),
                        slot <= 3,
                        slot as int == layer_slot(layer.name@),
                        forall|k: int| 0 <= k < ls@.len() ==> (#[trigger] ls@[k]).inv(),
                        out@ == old(out)@ + fmt_samples(ls@.take(i as int)) + fmt_sample_elems(
                            slot as int,
                            layer.elements@.take(j as int),
                        ),
                    decreases en - j,
                {
                    let e = &layer.elements[j];
                    match &e.kind {
                        StoryboardElementKind::Sample(sm) => {
                            push_u32_text(out, 5);
                            push_byte(out, 44);
                            sm.start_time.push_text(out);
                            push_byte(out, 44);
                            push_u32_text(out, slot as u32);
                            push_byte(out, 44);
                            push_byte(out, 34);
                            push_lit(out, e.path.as_slice());
                            push_byte(out, 34);
                            push_byte(out, 44);
                            push_i32_text(out, sm.volume);
                            push_byte(out, 10);
                        },
                        _ => {},
                    }
                    proof {
                        assert(layer.elements@.take(j + 1).drop_last() =~= layer.elements@.take(
                            j as int,
                        ));
                        assert(layer.elements@.take(j + 1).last() == layer.elements@[j as int]);
                        assert(out@ =~= old(out)@ + fmt_samples(ls@.take(i as int))
                            + fmt_sample_elems(slot as int, layer.elements@.take(j + 1)));
                    }
                    j = j + 1;
                }
                proof {
                    assert(layer.elements@.take(en as int) =~= layer.elements@);
                    assert(ls@.take(i + 1).drop_last() =~= ls@.take(i as int));
                    assert(ls@.take(i + 1).last() == ls@[i as int]);
                    assert(out@ =~= old(out)@ + fmt_samples(ls@.take(i + 1)));
                }
            },
            None => {
                proof {
                    assert(ls@.take(i + 1).drop_last() =~= ls@.take(i as int));
                    assert(ls@.take(i + 1).last() == ls@[i as int]);
                    assert(out@ =~= old(out)@ + fmt_samples(ls@.take(i + 1)));
                }
            },
        }
        i = i + 1;
    }
    proof {
        assert(ls@.take(n as int) =~= ls@);
    }
}

/// Append the video lines of every layer.
#[verifier::rlimit(100)]
fn push_videos(out: &mut Vec<u8>, ls: &Vec<crate::layer::StoryboardLayer>)
    requires
        forall|i: int| 0 <= i < ls@.len() ==> (#[trigger] ls@[i]).inv(),
    ensures
        final(out)@ == old(out)@ + fmt_videos(ls@),
{
    let n = ls.len();
    let mut i: usize = 0;
    proof {
        assert(out@ =~= old(out)@ + fmt_videos(ls@.take(0)));
    }
    while i < n
        invariant
            0 <= i <= n,
            n == ls@.len(),
            forall|k: int| 0 <= k < ls@.len() ==> (#[trigger] ls@[k]).inv(),
            out@ == old(out)@ + fmt_videos(ls@.take(i as int)),
        decreases n - i,
    {
        let layer = &ls[i];
        let en = layer.elements.len();
        let mut j: usize = 0;
        proof {
            assert(out@ =~= old(out)@ + fmt_videos(ls@.take(i as int)) + fmt_video_elems(
                layer.elements@.take(0),
            ));
        }
        while j < en
            invariant
                0 <= j <= en,
                0 <= i < n,
                n == ls@.len(),
                layer == &ls@[i as int],
                en == layer.elements@.len(),
                forall|k: int| 0 <= k < ls@.len() ==> (#[trigger] ls@[k]).inv(),
                out@ == old(out)@ + fmt_videos(ls@.take(i as int)) + fmt_video_elems(
                    layer.elements@.take(j as int),
                ),
            decreases en - j,
        {
            let e = &layer.elements[j];
            match &e.kind {
                StoryboardElementKind::Video(v) => {
                    push_u32_text(out, 1);
                    push_byte(out, 44);
                    v.start_time.push_text(out);
                    push_byte(out, 44);
                    push_byte(out, 34);
                    push_lit(out, e.path.as_slice());
                    push_byte(out, 34);
                    push_byte(out, 10);
                },
                _ => {},
            }
            proof {
                assert(layer.elements@.take(j + 1).drop_last() =~= layer.elements@.take(j as int));
                assert(layer.elements@.take(j + 1).last() == layer.elements@[j as int]);
                assert(out@ =~= old(out)@ + fmt_videos(ls@.take(i as int)) + fmt_video_elems(
                    layer.elements@.take(j + 1),
                ));
            }
            j = j + 1;
        }
        proof {
            assert(layer.elements@.take(en as int) =~= layer.elements@);
            assert(ls@.take(i + 1).drop_last() =~= ls@.take(i as int));
            assert(ls@.take(i + 1).last() == ls@[i as int]);
            assert(out@ =~= old(out)@ + fmt_videos(ls@.take(i + 1)));
        }
        i = i + 1;
    }
    proof {
        assert(ls@.take(n as int) =~= ls@);
    }
}

/// Append the break period lines.
#[verifier::rlimit(100)]
fn push_breaks(out: &mut Vec<u8>, bs: &Vec<BreakPeriod>)
    requires
        forall|i: int|
            0 <= i < bs@.len() ==> (#[trigger] bs@[i]).start_time.bounded()
                && bs@[i].end_time.bounded(),
    ensures
        final(out)@ == old(out)@ + fmt_breaks(bs@),
{
    let n = bs.len();
    let mut i: usize = 0;
    proof {
        assert(out@ =~= old(out)@ + fmt_breaks(bs@.take(0)));
    }
    while i < n
        invariant
            0 <= i <= n,
            n == bs@.len(),
            forall|k: int|
                0 <= k < bs@.len() ==> (#[trigger] bs@[k]).start_time.bounded()
                    && bs@[k].end_time.bounded(),
            out@ == old(out)@ + fmt_breaks(bs@.take(i as int)),
        decreases n - i,
    {
        let b = bs[i];
        push_u32_text(out, 2);
        push_byte(out, 44);
        b.start_time.push_text(out);
        push_byte(out, 44);
        b.end_time.push_text(out);
        push_byte(out, 10);
        proof {
            assert(bs@.take(i + 1).drop_last() =~= bs@.take(i as int));
            assert(bs@.take(i + 1).last() == bs@[i as int]);
            assert(out@ =~= old(out)@ + fmt_breaks(bs@.take(i + 1)));
        }
        i = i + 1;
    }
    proof {
        assert(bs@.take(n as int) =~= bs@);
    }
}

impl Storyboard {
    /// Encode the storyboard into document text. Decoding the text rebuilds
    /// the storyboard: every omission rule of the encoder inverts a
    /// defaulting rule of the decoder.
    ///
    /// The required invariant holds of every storyboard the decoder
    /// returns; a hand-assembled model must establish it itself.
    #[verifier::rlimit(100)]
    pub fn encode(&self) -> (out: Vec<u8>)
        requires
            self.inv(),
        ensures
            out@ == fmt_document(*self),
    {
        let mut out: Vec<u8> = Vec::new();
        push_lit(&mut out, "osu file format v".as_bytes());
        push_i32_text(&mut out, self.format_version);
        push_byte(&mut out, 10);
        push_byte(&mut out, 10);
        push_lit(&mut out, "[General]".as_bytes());
        push_byte(&mut out, 10);
        push_lit(&mut out, "UseSkinSprites: ".as_bytes());
        if self.use_skin_sprites {
            push_lit(&mut out, "1".as_bytes());
        } else {
            push_lit(&mut out, "0".as_bytes());
        }
        push_byte(&mut out, 10);
        push_byte(&mut out, 10);
        push_lit(&mut out, "[Events]".as_bytes());
        push_byte(&mut out, 10);
        push_lit(&mut out, "//Background and Video events".as_bytes());
        push_byte(&mut out, 10);
        if self.background_file.len() > 0 {
            push_u32_text(&mut out, 0);
            push_byte(&mut out, 44);
            push_u32_text(&mut out, 0);
            push_byte(&mut out, 44);
            push_byte(&mut out, 34);
            push_lit(&mut out, self.background_file.as_slice());
            push_byte(&mut out, 34);
            push_byte(&mut out, 44);
            push_u32_text(&mut out, 0);
            push_byte(&mut out, 44);
            push_u32_text(&mut out, 0);
            push_byte(&mut out, 10);
        }
        push_videos(&mut out, &self.layers);
        push_lit(&mut out, "//Break Periods".as_bytes());
        push_byte(&mut out, 10);
        push_breaks(&mut out, &self.breaks);
        push_lit(&mut out, "//Storyboard layers".as_bytes());
        push_byte(&mut out, 10);
        push_layers(&mut out, &self.layers);
        push_lit(&mut out, "//Storyboard Sound Samples".as_bytes());
        push_byte(&mut out, 10);
        push_samples(&mut out, &self.layers);
        proof {
            assert(out@ =~= fmt_document(*self));
        }
        out
    }
}

} // verus!
