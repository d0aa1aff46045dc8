use rosu_storyboard::decode::ParseStoryboardError;
use rosu_storyboard::element::{AnimationLoopType, StoryboardElementKind};
use rosu_storyboard::num::{Num, NumberError, SCALE};
use rosu_storyboard::storyboard::Storyboard;
use rosu_storyboard::visual::Anchor;

fn decode(doc: &str) -> Storyboard {
    Storyboard::decode(doc.as_bytes()).expect("expected a decodable document")
}

fn layer<'a>(sb: &'a Storyboard, name: &str) -> &'a rosu_storyboard::layer::StoryboardLayer {
    sb.try_get_layer(name.as_bytes()).expect("expected layer")
}

fn whole(n: i64) -> Num {
    Num {
        units: n as i128 * SCALE,
    }
}

#[test]
fn decode_sprite_fade_scenario() {
    let sb = decode("osu file format v14\n\n[Events]\nSprite,0,0,\"a.png\",320,240\n F,0,0,,1\n");
    let bg = layer(&sb, "Background");
    assert_eq!(bg.elements.len(), 1);
    let elem = &bg.elements[0];
    assert_eq!(elem.path, b"a.png".to_vec());
    match &elem.kind {
        StoryboardElementKind::Sprite(s) => {
            assert_eq!(s.origin, Anchor(9));
            assert_eq!(s.initial_pos.x, whole(320));
            assert_eq!(s.initial_pos.y, whole(240));
            let alpha = &s.timeline_group.alpha;
            assert_eq!(alpha.commands.len(), 1);
            assert_eq!(alpha.commands[0].start_time, whole(0));
            assert_eq!(alpha.commands[0].end_time, whole(0));
            assert_eq!(alpha.commands[0].start_value, whole(1));
            assert_eq!(alpha.commands[0].end_value, whole(1));
            assert_eq!(alpha.start_time, whole(0));
            assert_eq!(alpha.end_time, whole(0));
        }
        _ => panic!("expected sprite"),
    }
    // the first sprite's path becomes the background fallback
    assert_eq!(sb.background_file, b"a.png".to_vec());
}

#[test]
fn layer_visibility_defaults() {
    let sb = decode("osu file format v14\n\n[Events]\n");
    assert_eq!(sb.layers.len(), 6);
    let fail = layer(&sb, "Fail");
    assert!(!fail.visible_when_passing);
    assert!(fail.visible_when_failing);
    assert_eq!(fail.depth, 2);
    let pass = layer(&sb, "Pass");
    assert!(pass.visible_when_passing);
    assert!(!pass.visible_when_failing);
    assert_eq!(pass.depth, 1);
    for name in ["Video", "Background", "Foreground", "Overlay"] {
        let l = layer(&sb, name);
        assert!(l.visible_when_passing);
        assert!(l.visible_when_failing);
    }
    assert_eq!(layer(&sb, "Video").depth, 4);
    assert!(!layer(&sb, "Video").masking);
    assert_eq!(layer(&sb, "Background").depth, 3);
    assert_eq!(layer(&sb, "Foreground").depth, 0);
    assert_eq!(layer(&sb, "Overlay").depth, i32::MIN);
}

#[test]
fn end_time_clamp() {
    let sb = decode(
        "osu file format v14\n\n[Events]\nSprite,0,0,\"a.png\",0,0\n F,0,10,5,1\n",
    );
    let bg = layer(&sb, "Background");
    match &bg.elements[0].kind {
        StoryboardElementKind::Sprite(s) => {
            let c = &s.timeline_group.alpha.commands[0];
            assert_eq!(c.start_time, whole(10));
            assert_eq!(c.end_time, whole(10));
        }
        _ => panic!("expected sprite"),
    }
}

#[test]
fn default_propagation() {
    let sb = decode(
        "osu file format v14\n\n[Events]\nSprite,0,0,\"a.png\",0,0\n F,0,7,,0.5\n",
    );
    let bg = layer(&sb, "Background");
    match &bg.elements[0].kind {
        StoryboardElementKind::Sprite(s) => {
            let c = &s.timeline_group.alpha.commands[0];
            assert_eq!(c.end_time, c.start_time);
            assert_eq!(c.start_time, whole(7));
            assert_eq!(c.end_value, c.start_value);
            assert_eq!(c.start_value.units, SCALE / 2);
        }
        _ => panic!("expected sprite"),
    }
}

#[test]
fn decode_loop_count() {
    let doc = "osu file format v14\n\n[Events]\nSprite,0,0,\"zero-times.png\",320,240\n L,1000,0\n  F,0,0,,1\nSprite,0,0,\"one-time.png\",320,240\n L,1000,1\n  F,0,0,,1\nSprite,0,0,\"many-times.png\",320,240\n L,1000,9\n  F,0,0,1000,1\n";
    let sb = decode(doc);
    let bg = layer(&sb, "Background");
    assert_eq!(bg.elements.len(), 3);
    let counts: Vec<u32> = bg
        .elements
        .iter()
        .map(|e| match &e.kind {
            StoryboardElementKind::Sprite(s) => s.loops[0].total_iterations,
            _ => panic!("expected sprite"),
        })
        .collect();
    // a repeat count below one still plays the loop once
    assert_eq!(counts, vec![1, 1, 9]);
    match &bg.elements[2].kind {
        StoryboardElementKind::Sprite(s) => {
            // one iteration spans 1000, the display end counts all nine
            assert_eq!(s.end_time(), whole(2000));
            assert_eq!(s.end_time_for_display(), whole(10000));
        }
        _ => panic!("expected sprite"),
    }
}

#[test]
fn loop_without_explicit_fadeout() {
    let doc = "osu file format v14\n\n[Events]\nAnimation,0,0,\"a.png\",0,0,2,100\n L,2000,10\n  F,0,0,1000,0,1\n";
    let sb = decode(doc);
    let bg = layer(&sb, "Background");
    match &bg.elements[0].kind {
        StoryboardElementKind::Animation(a) => {
            assert_eq!(a.end_time(), whole(3000));
            assert_eq!(a.end_time_for_display(), whole(12000));
        }
        _ => panic!("expected animation"),
    }
}

#[test]
fn correct_animation_start_time() {
    // the animation moves at 1000 but only fades in from zero at 2000
    let doc = "osu file format v14\n\n[Events]\nAnimation,0,0,\"a.png\",0,0,2,100\n M,0,1000,1000,10,10\n F,0,2000,3000,0,1\n";
    let sb = decode(doc);
    let bg = layer(&sb, "Background");
    match &bg.elements[0].kind {
        StoryboardElementKind::Animation(a) => {
            assert_eq!(a.start_time(), whole(2000));
            assert_eq!(a.earliest_transform_time(), whole(1000));
        }
        _ => panic!("expected animation"),
    }
}

#[test]
fn out_of_order_start_times() {
    let doc = "osu file format v14\n\n[Events]\nSprite,0,0,\"a.png\",0,0\n M,0,1500,1500,0,0\n M,0,1000,1000,5,5\n";
    let sb = decode(doc);
    assert_eq!(sb.earliest_event_time(), Some(whole(1000)));
    assert_eq!(sb.latest_event_time(), Some(whole(1500)));
}

#[test]
fn earliest_start_time_with_loop_alphas() {
    // the loop's fade starts earlier but from a non-zero alpha, so the
    // sprite is first seen at its earliest transform
    let doc = "osu file format v14\n\n[Events]\nSprite,0,0,\"a.png\",0,0\n F,0,2000,3000,1\n L,1000,1\n  F,0,0,500,0.5,1\n";
    let sb = decode(doc);
    let bg = layer(&sb, "Background");
    match &bg.elements[0].kind {
        StoryboardElementKind::Sprite(s) => {
            assert_eq!(s.start_time(), whole(1000));
        }
        _ => panic!("expected sprite"),
    }
}

#[test]
fn decode_variable_with_suffix() {
    let doc = "osu file format v14\n\n[Variables]\n$t=3456\n\n[Events]\nSprite,0,0,\"a.png\",0,0\n F,0,$t,,1\n";
    let sb = decode(doc);
    let bg = layer(&sb, "Background");
    match &bg.elements[0].kind {
        StoryboardElementKind::Sprite(s) => {
            assert_eq!(s.timeline_group.alpha.start_time, whole(3456));
        }
        _ => panic!("expected sprite"),
    }
}

#[test]
fn decode_video_with_lowercase_extension() {
    let sb = decode("osu file format v14\n\n[Events]\nVideo,0,\"Video.avi\"\n");
    let video_layer = layer(&sb, "Video");
    assert_eq!(video_layer.elements.len(), 1);
    assert_eq!(video_layer.elements[0].path, b"Video.avi".to_vec());
    assert!(matches!(
        video_layer.elements[0].kind,
        StoryboardElementKind::Video(_)
    ));
    assert!(sb.background_file.is_empty());
}

#[test]
fn decode_video_with_uppercase_extension() {
    let sb = decode("osu file format v14\n\n[Events]\nVideo,0,\"Video.AVI\"\n");
    let video_layer = layer(&sb, "Video");
    assert_eq!(video_layer.elements.len(), 1);
    assert_eq!(video_layer.elements[0].path, b"Video.AVI".to_vec());
    assert!(sb.background_file.is_empty());
}

#[test]
fn decode_image_specified_as_video() {
    let sb = decode("osu file format v14\n\n[Events]\nVideo,0,\"Video.jpg\"\n");
    let video_layer = layer(&sb, "Video");
    assert!(video_layer.elements.is_empty());
    assert_eq!(sb.background_file, b"Video.jpg".to_vec());
}

#[test]
fn decode_out_of_range_loop_animation_type() {
    let doc = "osu file format v14\n\n[Events]\nAnimation,0,0,\"a.png\",0,0,2,100,0\nAnimation,0,0,\"a.png\",0,0,2,100,1\nAnimation,0,0,\"a.png\",0,0,2,100,2\nAnimation,0,0,\"a.png\",0,0,2,100,LoopOnce\nAnimation,0,0,\"a.png\",0,0,2,100,LoopForever\nAnimation,0,0,\"a.png\",0,0,2,100,junk\n";
    let sb = decode(doc);
    let bg = layer(&sb, "Background");
    let kinds: Vec<AnimationLoopType> = bg
        .elements
        .iter()
        .map(|e| match &e.kind {
            StoryboardElementKind::Animation(a) => a.loop_kind,
            _ => panic!("expected animation"),
        })
        .collect();
    assert_eq!(
        kinds,
        vec![
            AnimationLoopType::LoopForever,
            AnimationLoopType::LoopOnce,
            AnimationLoopType::LoopForever,
            AnimationLoopType::LoopOnce,
            AnimationLoopType::LoopForever,
            AnimationLoopType::LoopForever,
        ]
    );
}

#[test]
fn video_and_background_events_do_not_affect_storyboard_bounds() {
    let doc = "osu file format v14\n\n[Events]\nVideo,0,\"Video.avi\"\nBackground,0,\"bg.png\"\nSprite,0,0,\"a.png\",0,0\n F,0,5678,,1\n";
    let sb = decode(doc);
    assert_eq!(sb.earliest_event_time(), Some(whole(5678)));
    assert_eq!(sb.latest_event_time(), Some(whole(5678)));
    assert!(sb.has_drawable());
    let video_layer = layer(&sb, "Video");
    assert_eq!(video_layer.elements.len(), 1);
}

#[test]
fn legacy_frame_delay_rescale() {
    // under format version five a frame delay of 100 becomes
    // round(0.015 * 100) * 1.186 * 1000 / 60 of a second
    let sb = decode("osu file format v5\n\n[Events]\nAnimation,0,0,\"a.png\",0,0,2,100\n");
    let bg = layer(&sb, "Background");
    match &bg.elements[0].kind {
        StoryboardElementKind::Animation(a) => {
            assert_eq!(a.frame_delay.units, 39_533_333_333);
            assert_eq!(a.frame_count, 2);
        }
        _ => panic!("expected animation"),
    }
    // under a newer version the delay is stored as written
    let sb2 = decode("osu file format v14\n\n[Events]\nAnimation,0,0,\"a.png\",0,0,2,100\n");
    match &layer(&sb2, "Background").elements[0].kind {
        StoryboardElementKind::Animation(a) => {
            assert_eq!(a.frame_delay, whole(100));
        }
        _ => panic!("expected animation"),
    }
}

#[test]
fn break_end_clamped_to_start() {
    let sb = decode("osu file format v14\n\n[Events]\nBreak,5000,1000\n");
    assert_eq!(sb.breaks.len(), 1);
    assert_eq!(sb.breaks[0].start_time, whole(5000));
    assert_eq!(sb.breaks[0].end_time, whole(5000));
}

#[test]
fn trigger_defaults() {
    let doc = "osu file format v14\n\n[Events]\nSprite,0,0,\"a.png\",0,0\n T,HitSound\n  F,0,0,,1\n";
    let sb = decode(doc);
    let bg = layer(&sb, "Background");
    match &bg.elements[0].kind {
        StoryboardElementKind::Sprite(s) => {
            assert_eq!(s.triggers.len(), 1);
            let t = &s.triggers[0];
            assert_eq!(t.name, b"HitSound".to_vec());
            assert_eq!(t.start_time, Num { units: -rosu_storyboard::num::UNITS_CAP });
            assert_eq!(t.end_time, Num { units: rosu_storyboard::num::UNITS_CAP });
            assert_eq!(t.group_num, 0);
            assert_eq!(t.group.alpha.commands.len(), 1);
        }
        _ => panic!("expected sprite"),
    }
}

#[test]
fn decode_utf16_documents() {
    let doc = "osu file format v14\n\n[Events]\nSprite,0,0,\"a.png\",320,240\n F,0,0,,1\n";
    let mut le: Vec<u8> = vec![0xFF, 0xFE];
    for u in doc.encode_utf16() {
        le.extend_from_slice(&u.to_le_bytes());
    }
    let sb = Storyboard::decode(&le).expect("expected a decodable document");
    let bg = layer(&sb, "Background");
    assert_eq!(bg.elements.len(), 1);
    assert_eq!(bg.elements[0].path, b"a.png".to_vec());
    let mut be: Vec<u8> = vec![0xFE, 0xFF];
    for u in doc.encode_utf16() {
        be.extend_from_slice(&u.to_be_bytes());
    }
    let sb2 = Storyboard::decode(&be).expect("expected a decodable document");
    assert_eq!(layer(&sb2, "Background").elements.len(), 1);
}

#[test]
fn decode_exponent_time_field() {
    let sb = decode("osu file format v14\n\n[Events]\nSprite,0,0,\"a.png\",0,0\n F,0,2e3,,1\n");
    let bg = layer(&sb, "Background");
    match &bg.elements[0].kind {
        StoryboardElementKind::Sprite(s) => {
            assert_eq!(s.timeline_group.alpha.start_time, whole(2000));
        }
        _ => panic!("expected sprite"),
    }
}

#[test]
fn unknown_event_type_is_an_error() {
    let r = Storyboard::decode("osu file format v14\n\n[Events]\nNonsense,1,2\n".as_bytes());
    assert_eq!(r.unwrap_err(), ParseStoryboardError::EventType);
}

#[test]
fn unknown_command_type_is_an_error() {
    let r = Storyboard::decode(
        "osu file format v14\n\n[Events]\nSprite,0,0,\"a.png\",0,0\n Q,0,0,0,1\n".as_bytes(),
    );
    assert_eq!(r.unwrap_err(), ParseStoryboardError::UnknownCommandType);
}

#[test]
fn missing_fields_are_an_error() {
    let r = Storyboard::decode("osu file format v14\n\n[Events]\nSprite,0,0\n".as_bytes());
    assert_eq!(r.unwrap_err(), ParseStoryboardError::InvalidLine);
}

#[test]
fn malformed_number_is_an_error() {
    let r = Storyboard::decode(
        "osu file format v14\n\n[Events]\nSprite,0,0,\"a.png\",abc,0\n".as_bytes(),
    );
    assert_eq!(
        r.unwrap_err(),
        ParseStoryboardError::Number(NumberError::Invalid)
    );
    let r2 = Storyboard::decode(
        "osu file format v14\n\n[Events]\nSprite,0,0,\"a.png\",999999999,0\n".as_bytes(),
    );
    assert_eq!(
        r2.unwrap_err(),
        ParseStoryboardError::Number(NumberError::Overflow)
    );
}

#[test]
fn commands_after_flush_keep_their_target() {
    // a break line flushes the sprite, but a following command still lands
    // in the flushed sprite's timeline group
    let doc = "osu file format v14\n\n[Events]\nSprite,0,0,\"a.png\",0,0\n F,0,0,,1\nBreak,0,10\n F,0,500,,0\n";
    let sb = decode(doc);
    let bg = layer(&sb, "Background");
    match &bg.elements[0].kind {
        StoryboardElementKind::Sprite(s) => {
            assert_eq!(s.timeline_group.alpha.commands.len(), 2);
        }
        _ => panic!("expected sprite"),
    }
}

#[test]
fn unknown_layer_names_sort_behind_overlay() {
    let doc = "osu file format v14\n\n[Events]\nSprite,Custom,0,\"a.png\",0,0\n F,0,0,,1\n";
    let sb = decode(doc);
    let custom = layer(&sb, "Custom");
    assert_eq!(custom.depth, -1);
    assert!(custom.masking);
    assert!(custom.visible_when_passing);
    assert!(custom.visible_when_failing);
    assert_eq!(custom.elements.len(), 1);
    assert_eq!(sb.min_layer_depth, -1);
}
