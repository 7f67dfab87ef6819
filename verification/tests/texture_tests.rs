use arcana::textures::{hash_bits, Tex, TS};

#[test]
fn new_texture_is_transparent() {
    let t = Tex::new(3, 2);
    assert_eq!((t.w, t.h), (3, 2));
    assert_eq!(t.px.len(), 6);
    assert!(t.px.iter().all(|p| *p == [0, 0, 0, 0]));
}

#[test]
fn set_then_get_reads_back() {
    let mut t = Tex::new(4, 4);
    t.set(2, 3, [1, 2, 3, 4]);
    assert_eq!(t.get(2, 3), [1, 2, 3, 4]);
    assert_eq!(t.get(3, 2), [0, 0, 0, 0]);
    assert_eq!(t.px[3 * 4 + 2], [1, 2, 3, 4]);
}

#[test]
fn set_outside_is_ignored() {
    let mut t = Tex::new(4, 4);
    t.set(4, 0, [9, 9, 9, 9]);
    t.set(0, 4, [9, 9, 9, 9]);
    assert!(t.px.iter().all(|p| *p == [0, 0, 0, 0]));
}

#[test]
fn get_clamps_to_edges() {
    let mut t = Tex::new(TS, TS);
    t.set(63, 63, [7, 7, 7, 7]);
    t.set(63, 0, [5, 5, 5, 5]);
    assert_eq!(t.get(100, 200), [7, 7, 7, 7]);
    assert_eq!(t.get(64, 0), [5, 5, 5, 5]);
}

#[test]
fn hash_bits_values() {
    assert_eq!(hash_bits(0, 0, 0), 0);
    assert_eq!(hash_bits(1, 2, 3), 20099);
    assert_eq!(hash_bits(5, 7, 11), 9299);
    assert!(hash_bits(12345, 999, 42) <= 0xffff);
}
