use arcana::sprites::{
    draw_card_face, draw_orb, set_a, spirit_frames, sprite_rect, texel, Kind, FRAMES,
};
use arcana::textures::{Tex, TS};

#[test]
fn set_a_ignores_negative() {
    let mut t = Tex::new(4, 4);
    set_a(&mut t, -1, 0, [1, 1, 1, 1]);
    set_a(&mut t, 0, -1, [1, 1, 1, 1]);
    assert!(t.px.iter().all(|p| *p == [0, 0, 0, 0]));
    set_a(&mut t, 1, 2, [1, 2, 3, 4]);
    assert_eq!(t.get(1, 2), [1, 2, 3, 4]);
}

#[test]
fn spirit_frames_shape() {
    let mut hems = [[0i32; 40]; 4];
    hems[1] = [3; 40];
    let frames = spirit_frames(&hems);
    assert_eq!(frames.len(), FRAMES);
    let f0 = &frames[0];
    assert_eq!((f0.w, f0.h), (TS, TS));
    // eyes
    assert_eq!(f0.get(25, 24), [20, 20, 60, 255]);
    assert_eq!(f0.get(39, 22), [20, 20, 60, 255]);
    // head, solid above row 30
    assert_eq!(f0.get(32, 10), [190, 220, 255, 215]);
    // fading body below row 30
    assert_eq!(f0.get(32, 40), [190, 220, 255, 165]);
    // below the hem
    assert_eq!(f0.get(32, 44), [0, 0, 0, 0]);
    // outside the head disc
    assert_eq!(f0.get(14, 10), [0, 0, 0, 0]);
    assert_eq!(f0.get(5, 30), [0, 0, 0, 0]);
    // a lower hem in frame 1
    assert_eq!(frames[1].get(32, 46), [190, 220, 255, 135]);
    assert_eq!(frames[1].get(32, 47), [0, 0, 0, 0]);
}

#[test]
fn spirit_hem_never_below_row_60() {
    let hems = [[100i32; 40]; 4];
    let frames = spirit_frames(&hems);
    assert_eq!(frames[2].get(32, 59), [190, 220, 255, 70]);
    assert_eq!(frames[2].get(32, 60), [0, 0, 0, 0]);
}

#[test]
fn card_face_colors() {
    let mut t = Tex::new(TS, TS);
    draw_card_face(&mut t, 0);
    assert_eq!(t.get(18, 9), [235, 200, 90, 255]);
    assert_eq!(t.get(25, 20), [48, 28, 78, 255]);
    assert_eq!(t.get(32, 31), [255, 235, 150, 255]);
    assert_eq!(t.get(17, 9), [0, 0, 0, 0]);
    assert_eq!(t.get(18, 53), [0, 0, 0, 0]);
    let mut t = Tex::new(TS, TS);
    draw_card_face(&mut t, 3);
    assert_eq!(t.get(18, 12), [235, 200, 90, 255]);
    assert_eq!(t.get(18, 11), [0, 0, 0, 0]);
    assert_eq!(t.get(32, 34), [255, 235, 150, 255]);
}

#[test]
fn orb_core_and_rim() {
    let mut t = Tex::new(TS, TS);
    draw_orb(&mut t, 10, 10, [1, 2, 3]);
    assert_eq!(t.get(10, 10), [1, 2, 3, 255]);
    assert_eq!(t.get(12, 10), [1, 2, 3, 255]);
    assert_eq!(t.get(13, 10), [1, 2, 3, 140]);
    assert_eq!(t.get(12, 12), [1, 2, 3, 140]);
    assert_eq!(t.get(13, 13), [0, 0, 0, 0]);
    assert_eq!(t.get(14, 10), [0, 0, 0, 0]);
    let mut t = Tex::new(TS, TS);
    draw_orb(&mut t, 0, 63, [9, 9, 9]);
    assert_eq!(t.get(0, 63), [9, 9, 9, 255]);
    assert_eq!(t.get(3, 63), [9, 9, 9, 140]);
}

#[test]
fn kinds_compare() {
    assert_eq!(Kind::Card, Kind::Card);
    assert_ne!(Kind::Card, Kind::Spirit);
}

#[test]
fn billboard_rect_clips_to_frame() {
    assert_eq!(sprite_rect(320, 100), (270, 370, 150, 250));
    assert_eq!(sprite_rect(10, 100), (0, 60, 150, 250));
    assert_eq!(sprite_rect(630, 1000), (130, 639, 0, 399));
    assert_eq!(sprite_rect(-5000, 3), (0, -4999, 198, 201));
}

#[test]
fn texel_scaling() {
    assert_eq!(texel(0, 100), 0);
    assert_eq!(texel(50, 100), 32);
    assert_eq!(texel(99, 100), 63);
    assert_eq!(texel(100, 100), 63);
    assert_eq!(texel(3, 2), 63);
}
