use arcana::game::{Game, Pickup, Proceed, State, Touch, World, LIFE_MAX, SPIRIT_DRAIN};
use arcana::level::{Level, LevelDef};
use arcana::sprites::Kind;

fn level(rows: Vec<&'static str>) -> Level {
    Level::parse(&LevelDef { name: "T", subtitle: "", arcanum: 0, grid: rows, seed: 0 })
}

fn two_card_level() -> Level {
    level(vec!["1111", "1PC1", "1CS1", "1X.1", "1111"])
}

#[test]
fn fresh_world_layout() {
    let w = World::new(0, &two_card_level());
    assert_eq!(w.kinds, vec![Kind::Card, Kind::Card, Kind::Spirit, Kind::Portal]);
    assert_eq!(w.alive, vec![true; 4]);
    assert_eq!((w.cards_total, w.cards_got, w.dispelled), (2, 0, 0));
    assert!(!w.portal_active);
    assert_eq!(w.spirits_left(), 1);
}

#[test]
fn last_card_opens_portal() {
    let mut w = World::new(0, &two_card_level());
    assert_eq!(w.collect_card(0), Pickup::Collected);
    assert!(!w.portal_active);
    assert_eq!(w.collect_card(0), Pickup::Ignored);
    assert_eq!(w.collect_card(2), Pickup::Ignored);
    assert_eq!(w.collect_card(9), Pickup::Ignored);
    assert_eq!(w.collect_card(1), Pickup::PortalOpened);
    assert!(w.portal_active);
    assert_eq!(w.cards_got, 2);
}

#[test]
fn dispel_only_live_spirits() {
    let mut w = World::new(0, &two_card_level());
    assert!(!w.dispel_spirit(0));
    assert!(w.dispel_spirit(2));
    assert!(!w.dispel_spirit(2));
    assert_eq!(w.dispelled, 1);
    assert_eq!(w.spirits_left(), 0);
}

#[test]
fn game_flow_through_two_levels() {
    let mut g = Game::new(vec![two_card_level(), level(vec!["111", "1C1", "111"])]);
    assert_eq!(g.state, State::Menu);
    assert_eq!(g.proceed(), Proceed::Stay);
    assert_eq!(g.pick(7), Some(1));
    assert_eq!(g.world.as_ref().unwrap().level_idx, 1);
    assert!(g.escape());
    assert_eq!(g.state, State::Menu);
    assert_eq!(g.pick(0), Some(0));
    assert_eq!(g.pick(0), None);
    assert!(!g.reach_portal());
    assert_eq!(g.collect_card(0), Pickup::Collected);
    assert!(g.dispel_spirit(2));
    assert_eq!(g.collect_card(1), Pickup::PortalOpened);
    assert!(g.reach_portal());
    assert_eq!(g.state, State::Success { dispelled: 1 });
    assert_eq!(g.collect_card(0), Pickup::Ignored);
    assert_eq!(g.proceed(), Proceed::Next(1));
    assert_eq!(g.state, State::Playing);
    assert_eq!(g.world.as_ref().unwrap().cards_got, 0);
    assert_eq!(g.collect_card(0), Pickup::PortalOpened);
    assert!(g.reach_portal());
    assert_eq!(g.proceed(), Proceed::Victory);
    assert_eq!(g.state, State::Victory);
    assert!(!g.escape());
    assert_eq!(g.proceed(), Proceed::Menu);
    assert_eq!(g.state, State::Menu);
}

#[test]
fn escape_from_result_screen() {
    let mut g = Game::new(vec![level(vec!["111", "1C1", "111"])]);
    g.pick(0);
    g.collect_card(0);
    assert!(g.reach_portal());
    assert!(g.escape());
    assert_eq!(g.state, State::Menu);
}

#[test]
fn level_without_cards_never_opens() {
    let mut g = Game::new(vec![level(vec!["111", "1P1", "111"])]);
    g.pick(0);
    assert!(!g.world.as_ref().unwrap().portal_active);
    assert!(!g.reach_portal());
    assert_eq!(g.state, State::Playing);
}

#[test]
fn spirits_drain_light_until_defeat() {
    let mut g = Game::new(vec![two_card_level()]);
    assert_eq!(g.spirit_touch(), Touch::Ignored);
    g.pick(0);
    assert_eq!(g.world.as_ref().unwrap().life, LIFE_MAX);
    for k in 1..5 {
        assert_eq!(g.spirit_touch(), Touch::Hurt);
        assert_eq!(g.world.as_ref().unwrap().life, LIFE_MAX - k * SPIRIT_DRAIN);
    }
    assert_eq!(g.spirit_touch(), Touch::Defeated);
    assert_eq!(g.state, State::Defeat);
    assert_eq!(g.world.as_ref().unwrap().life, 0);
    assert_eq!(g.spirit_touch(), Touch::Ignored);
    assert_eq!(g.collect_card(0), Pickup::Ignored);
}

#[test]
fn retry_after_defeat_restarts_level() {
    let mut g = Game::new(vec![two_card_level(), level(vec!["111", "1C1", "111"])]);
    g.pick(1);
    g.collect_card(0);
    for _ in 0..5 {
        g.spirit_touch();
    }
    assert_eq!(g.state, State::Defeat);
    assert!(!g.reach_portal());
    assert_eq!(g.proceed(), Proceed::Retry(1));
    assert_eq!(g.state, State::Playing);
    let w = g.world.as_ref().unwrap();
    assert_eq!((w.level_idx, w.cards_got, w.life), (1, 0, LIFE_MAX));
    assert!(!w.portal_active);
}

#[test]
fn escape_from_defeat() {
    let mut g = Game::new(vec![two_card_level()]);
    g.pick(0);
    for _ in 0..5 {
        g.spirit_touch();
    }
    assert!(g.escape());
    assert_eq!(g.state, State::Menu);
}
