use arcana::raycast::{wall_index, wall_span, Fb, RH, RW};

#[test]
fn new_frame_is_black() {
    let fb = Fb::new();
    assert_eq!(fb.bytes.len(), RW * RH * 4);
    assert_eq!(fb.get(0, 0), [0, 0, 0, 255]);
    assert_eq!(fb.get(RW - 1, RH - 1), [0, 0, 0, 255]);
}

#[test]
fn put_and_fill_row() {
    let mut fb = Fb::new();
    fb.put(3, 2, [10, 20, 30]);
    assert_eq!(fb.get(3, 2), [10, 20, 30, 255]);
    assert_eq!(fb.bytes[(2 * RW + 3) * 4], 10);
    fb.fill_row(5, [1, 2, 3]);
    assert_eq!(fb.get(0, 5), [1, 2, 3, 255]);
    assert_eq!(fb.get(RW - 1, 5), [1, 2, 3, 255]);
    assert_eq!(fb.get(0, 6), [0, 0, 0, 255]);
    assert_eq!(fb.get(3, 2), [10, 20, 30, 255]);
}

#[test]
fn wall_texture_choice() {
    assert_eq!(wall_index(0, 5), 0);
    assert_eq!(wall_index(1, 5), 0);
    assert_eq!(wall_index(3, 5), 2);
    assert_eq!(wall_index(5, 5), 4);
    assert_eq!(wall_index(9, 5), 4);
    assert_eq!(wall_index(4, 1), 0);
}

#[test]
fn wall_span_centres_and_clips() {
    assert_eq!(wall_span(100), (150, 250));
    assert_eq!(wall_span(0), (200, 200));
    assert_eq!(wall_span(400), (0, 399));
    assert_eq!(wall_span(5000), (0, 399));
    assert_eq!(wall_span(101), (149, 250));
}
