use rosu_storyboard::storyboard::Storyboard;

fn decode(doc: &str) -> Storyboard {
    Storyboard::decode(doc.as_bytes()).expect("expected a decodable document")
}

#[test]
fn stability() {
    let docs = [
        "osu file format v14\n\n[Events]\nSprite,0,0,\"a.png\",320,240\n F,0,0,,1\n",
        "osu file format v14\n\n[General]\nUseSkinSprites: 1\n\n[Events]\nVideo,0,\"intro.avi\"\nBackground,0,\"bg.png\"\nBreak,100,200\nSprite,3,1,\"fg.png\",-10,0.5\n M,7,1000,2000,10,20,30,40\n S,0,0,,2\n R,0,0,500,1.5707963\n C,0,0,,255,128,0\n V,0,0,,1,2\n P,0,0,100,A\n P,0,0,,H\n MX,0,0,,5\n MY,0,0,,6\nAnimation,2,4,\"frames.png\",0,0,4,50,LoopOnce\n F,0,0,1000,0,1\n L,500,3\n  F,0,0,250,0.25\n T,HitSoundClap,0,1000\n  S,0,0,,1.5\nSample,300,1,\"clap.wav\",80\n",
        // a version below six would rescale the frame delay again on the
        // second decode, so the round trip is stated for current versions
        "osu file format v14\n\n[Variables]\n$t=750\n\n[Events]\nAnimation,0,0,\"a.png\",0,0,2,100\n F,0,$t,,1\n",
    ];
    for doc in docs {
        let once = decode(doc);
        let text = once.encode();
        let twice = Storyboard::decode(&text).expect("expected the encoded text to decode");
        let text2 = twice.encode();
        assert_eq!(
            String::from_utf8_lossy(&text),
            String::from_utf8_lossy(&text2)
        );
    }
}

#[test]
fn encode_writes_the_expected_document() {
    let sb = decode("osu file format v14\n\n[Events]\nSprite,0,0,\"a.png\",320,240\n F,0,0,,1\n");
    let text = String::from_utf8(sb.encode()).expect("expected text output");
    let expected = "osu file format v14\n\n[General]\nUseSkinSprites: 0\n\n[Events]\n\
//Background and Video events\n0,0,\"a.png\",0,0\n//Break Periods\n//Storyboard layers\n\
4,0,0,\"a.png\",320,240\n F,0,0,,1\n//Storyboard Sound Samples\n";
    assert_eq!(text, expected);
}

#[test]
fn encode_omits_equal_ends_and_keeps_different_ones() {
    let sb = decode(
        "osu file format v14\n\n[Events]\nSprite,0,0,\"a.png\",0,0\n F,0,0,100,0,1\n F,0,200,,0.5\n",
    );
    let text = String::from_utf8(sb.encode()).expect("expected text output");
    assert!(text.contains(" F,0,0,100,0,1\n"));
    assert!(text.contains(" F,0,200,,0.5\n"));
}

#[test]
fn encode_keeps_fractional_values_exactly() {
    let sb = decode(
        "osu file format v14\n\n[Events]\nSprite,0,0,\"a.png\",0.125,-3.5\n F,0,0,,0.75\n",
    );
    let text = String::from_utf8(sb.encode()).expect("expected text output");
    assert!(text.contains("4,0,0,\"a.png\",0.125,-3.5\n"));
    assert!(text.contains(" F,0,0,,0.75\n"));
}

#[test]
fn overlay_elements_have_no_textual_form() {
    // the overlay layer has no legacy slot, so its sprites are dropped on
    // encode
    let sb = decode(
        "osu file format v14\n\n[Events]\nBackground,0,\"bg.png\"\nSprite,4,0,\"o.png\",0,0\n F,0,0,,1\n",
    );
    assert_eq!(
        sb.try_get_layer(b"Overlay").expect("expected layer").elements.len(),
        1
    );
    let text = String::from_utf8(sb.encode()).expect("expected text output");
    assert!(!text.contains("o.png"));
}
