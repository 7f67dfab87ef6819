use arcana::ui::{menu_step, MenuInput};

fn quiet() -> MenuInput {
    MenuInput {
        hover: None,
        next: false,
        prev: false,
        key1: false,
        key2: false,
        key3: false,
        confirm: false,
    }
}

#[test]
fn arrows_wrap() {
    let mut sel = 2;
    assert_eq!(menu_step(&mut sel, MenuInput { next: true, ..quiet() }), None);
    assert_eq!(sel, 0);
    assert_eq!(menu_step(&mut sel, MenuInput { prev: true, ..quiet() }), None);
    assert_eq!(sel, 2);
    assert_eq!(menu_step(&mut sel, MenuInput { next: true, prev: true, ..quiet() }), None);
    assert_eq!(sel, 2);
}

#[test]
fn hover_then_confirm() {
    let mut sel = 0;
    assert_eq!(menu_step(&mut sel, MenuInput { hover: Some(1), confirm: true, ..quiet() }), Some(1));
    assert_eq!(sel, 1);
}

#[test]
fn digit_keys_enter_directly() {
    let mut sel = 1;
    assert_eq!(menu_step(&mut sel, MenuInput { key3: true, confirm: true, ..quiet() }), Some(2));
    assert_eq!(sel, 2);
    assert_eq!(menu_step(&mut sel, MenuInput { key1: true, key2: true, ..quiet() }), Some(0));
    assert_eq!(sel, 0);
}

#[test]
fn nothing_pressed() {
    let mut sel = 1;
    assert_eq!(menu_step(&mut sel, quiet()), None);
    assert_eq!(sel, 1);
}
