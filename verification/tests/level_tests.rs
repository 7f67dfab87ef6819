use arcana::level::{all_levels, level_fool, level_hanged_man, level_hermit, Level, LevelDef};

fn def_of(rows: Vec<&'static str>) -> LevelDef {
    LevelDef { name: "TEST", subtitle: "", arcanum: 0, grid: rows, seed: 0 }
}

#[test]
fn niveles_jugables() {
    for def in all_levels() {
        let lv = Level::parse(&def);
        assert!(lv.check_reachable(), "{}: level not completable", def.name);
    }
}

#[test]
fn fool_level_layout() {
    let def = level_fool();
    assert_eq!(def.name, "THE FOOL");
    assert_eq!(def.seed, 11);
    let lv = Level::parse(&def);
    assert_eq!((lv.w, lv.h), (20, 15));
    assert_eq!(lv.spawn, (1, 13));
    assert_eq!(lv.portal, (14, 9));
    assert_eq!(lv.cards, vec![(17, 1), (4, 4), (4, 10)]);
    assert_eq!(lv.spirits, vec![(5, 1), (16, 6), (7, 7), (16, 12)]);
    assert_eq!(lv.cell(0, 0), 1);
    assert_eq!(lv.cell(2, 2), 2);
    assert_eq!(lv.cell(12, 2), 3);
    assert_eq!(lv.cell(12, 7), 4);
    assert_eq!(lv.cell(2, 8), 5);
    assert_eq!(lv.cell(1, 1), 0);
}

#[test]
fn parse_reads_glyphs_in_reading_order() {
    let lv = Level::parse(&def_of(vec!["1C2S", "X.CP", "S54."]));
    assert_eq!((lv.w, lv.h), (4, 3));
    assert_eq!(lv.cells, vec![1, 0, 2, 0, 0, 0, 0, 0, 0, 5, 4, 0]);
    assert_eq!(lv.cards, vec![(1, 0), (2, 1)]);
    assert_eq!(lv.spirits, vec![(3, 0), (0, 2)]);
    assert_eq!(lv.spawn, (3, 1));
    assert_eq!(lv.portal, (0, 1));
}

#[test]
fn parse_defaults_and_last_marker_wins() {
    let lv = Level::parse(&def_of(vec!["....", "....", "...."]));
    assert_eq!(lv.spawn, (1, 1));
    assert_eq!(lv.portal, (1, 1));
    let lv = Level::parse(&def_of(vec!["P..P", "X..X"]));
    assert_eq!(lv.spawn, (3, 0));
    assert_eq!(lv.portal, (3, 1));
}

#[test]
fn cell_outside_grid_is_wall() {
    let lv = Level::parse(&def_of(vec!["..", ".."]));
    assert_eq!(lv.cell(-1, 0), 1);
    assert_eq!(lv.cell(0, -1), 1);
    assert_eq!(lv.cell(2, 0), 1);
    assert_eq!(lv.cell(0, 2), 1);
    assert_eq!(lv.cell(1, 1), 0);
    assert!(lv.solid(-1, 0));
    assert!(!lv.solid(0, 0));
}

#[test]
fn reachable_map_stops_at_walls() {
    let lv = Level::parse(&def_of(vec!["P.1.", "..1.", "111."]));
    let vis = lv.reachable_map((0, 0));
    let expect = vec![
        true, true, false, false, true, true, false, false, false, false, false, false,
    ];
    assert_eq!(vis, expect);
}

#[test]
fn walled_off_card_is_not_completable() {
    let lv = Level::parse(&def_of(vec![
        "111111", "1P.1C1", "1C.1.1", "1C.111", "1X...1", "111111",
    ]));
    assert!(!lv.check_reachable());
}

#[test]
fn completable_small_level() {
    let lv = Level::parse(&def_of(vec![
        "111111", "1P.C.1", "1C.1S1", "1C.1.1", "1X...1", "111111",
    ]));
    assert!(lv.check_reachable());
}

#[test]
fn two_cards_is_not_enough() {
    let lv = Level::parse(&def_of(vec!["11111", "1PCC1", "1.X.1", "11111"]));
    assert!(!lv.check_reachable());
}

#[test]
fn unreachable_spirit_fails_check() {
    let lv = Level::parse(&def_of(vec![
        "1111111", "1PCCC11", "1X...11", "11111S1", "1111111",
    ]));
    assert!(!lv.check_reachable());
}

#[test]
fn three_arcana_in_menu_order() {
    let defs = all_levels();
    assert_eq!(defs.len(), 3);
    assert_eq!(defs[0].name, "THE FOOL");
    assert_eq!(defs[1].name, "THE HANGED MAN");
    assert_eq!(defs[2].name, "THE HERMIT");
    assert_eq!((defs[0].arcanum, defs[1].arcanum, defs[2].arcanum), (0, 12, 9));
}

#[test]
fn only_the_hanged_man_inverts_controls() {
    assert!(!level_fool().controls_inverted());
    assert!(level_hanged_man().controls_inverted());
    assert!(!level_hermit().controls_inverted());
}

#[test]
fn hanged_man_and_hermit_layouts() {
    let lv = Level::parse(&level_hanged_man());
    assert_eq!((lv.w, lv.h), (20, 15));
    assert_eq!(lv.spawn, (1, 1));
    assert_eq!(lv.portal, (9, 7));
    assert_eq!(lv.cards, vec![(18, 1), (7, 9), (3, 13)]);
    assert_eq!(lv.spirits.len(), 4);
    let lv = Level::parse(&level_hermit());
    assert_eq!(lv.portal, (9, 8));
    assert_eq!(lv.cards, vec![(18, 1), (12, 4), (7, 12)]);
    assert_eq!(lv.spirits.len(), 5);
}
