use arcana::controls::{apply_curse, MoveKeys};

fn keys(forward: bool, strafe_left: bool, turn_right: bool) -> MoveKeys {
    MoveKeys { forward, back: false, strafe_left, strafe_right: false, turn_left: false, turn_right }
}

#[test]
fn curse_swaps_every_pair() {
    let k = apply_curse(keys(true, true, true), true);
    assert_eq!(
        k,
        MoveKeys {
            forward: false,
            back: true,
            strafe_left: false,
            strafe_right: true,
            turn_left: true,
            turn_right: false
        }
    );
}

#[test]
fn no_curse_keeps_keys() {
    let k = keys(true, false, true);
    assert_eq!(apply_curse(k, false), k);
}

#[test]
fn curse_twice_restores() {
    let k = keys(false, true, true);
    assert_eq!(apply_curse(apply_curse(k, true), true), k);
}
