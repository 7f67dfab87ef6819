//! Game progression: which sprites are still in play, the counters shown
//! on the HUD, when the portal opens, and the screen-to-screen flow from
//! the menu through each arcanum to the final victory.

use vstd::prelude::*;
use crate::level::Level;
use crate::sprites::Kind;

verus! {

/// The number of entries of `kinds` of kind `k`.
pub open spec fn count_kind(kinds: Seq<Kind>, k: Kind) -> nat
    decreases kinds.len(),
{
    if kinds.len() == 0 {
        0
    } else {
        count_kind(kinds.drop_last(), k) + (if kinds.last() == k {
            1nat
        } else {
            0nat
        })
    }
}

/// The number of positions whose kind is `k` and whose alive flag is `a`.
pub open spec fn count_of(kinds: Seq<Kind>, alive: Seq<bool>, k: Kind, a: bool) -> nat
    decreases kinds.len(),
{
    if kinds.len() == 0 {
        0
    } else {
        count_of(kinds.drop_last(), alive.drop_last(), k, a) + (if kinds.last() == k
            && alive.last() == a {
            1nat
        } else {
            0nat
        })
    }
}

/// Appending one entry adds it to the counts it matches.
proof fn lemma_count_push(kinds: Seq<Kind>, alive: Seq<bool>, k1: Kind, a1: bool)
    requires
        kinds.len() == alive.len(),
    ensures
        forall|k: Kind, a: bool|
            #[trigger] count_of(kinds.push(k1), alive.push(a1), k, a) == count_of(kinds, alive, k, a)
                + (if k1 == k && a1 == a {
                1nat
            } else {
                0nat
            }),
        forall|k: Kind|
            #[trigger] count_kind(kinds.push(k1), k) == count_kind(kinds, k) + (if k1 == k {
                1nat
            } else {
                0nat
            }),
{
    assert(kinds.push(k1).drop_last() == kinds);
    assert(alive.push(a1).drop_last() == alive);
}

/// Changing one alive flag moves that position from one count to another.
proof fn lemma_count_update(kinds: Seq<Kind>, alive: Seq<bool>, i: int, b: bool, k: Kind, a: bool)
    requires
        kinds.len() == alive.len(),
        0 <= i < kinds.len(),
    ensures
        count_of(kinds, alive.update(i, b), k, a) + (if kinds[i] == k && alive[i] == a {
            1nat
        } else {
            0nat
        }) == count_of(kinds, alive, k, a) + (if kinds[i] == k && b == a {
            1nat
        } else {
            0nat
        }),
    decreases kinds.len(),
{
    let n = kinds.len() - 1;
    if i < n {
        lemma_count_update(kinds.drop_last(), alive.drop_last(), i, b, k, a);
        assert(alive.update(i, b).drop_last() == alive.drop_last().update(i, b));
    } else {
        assert(alive.update(i, b).drop_last() == alive.drop_last());
    }
}

/// The alive and the removed entries of kind `k` together are all the
/// entries of kind `k`.
proof fn lemma_count_split(kinds: Seq<Kind>, alive: Seq<bool>, k: Kind)
    requires
        kinds.len() == alive.len(),
    ensures
        count_of(kinds, alive, k, true) + count_of(kinds, alive, k, false) == count_kind(kinds, k),
        count_kind(kinds, k) <= kinds.len(),
    decreases kinds.len(),
{
    if kinds.len() > 0 {
        lemma_count_split(kinds.drop_last(), alive.drop_last(), k);
    }
}

/// The sprite kinds of a fresh level: its cards, then its spirits, then
/// the portal.
pub open spec fn initial_kinds(cards: nat, spirits: nat) -> Seq<Kind> {
    Seq::new(cards, |i: int| Kind::Card) + Seq::new(spirits, |i: int| Kind::Spirit) + seq![
        Kind::Portal,
    ]
}

/// `w` is a fresh attempt at level `idx`, whose parsed map is `level`.
pub open spec fn fresh_world(w: World, idx: int, level: Level) -> bool {
    &&& w.level_idx == idx
    &&& w.kinds@ == initial_kinds(level.cards@.len(), level.spirits@.len())
    &&& w.alive@ == Seq::new(w.kinds@.len(), |i: int| true)
    &&& w.cards_total == level.cards@.len()
    &&& w.cards_got == 0
    &&& w.dispelled == 0
    &&& !w.portal_active
    &&& w.life == LIFE_MAX
}

/// What collecting a card did.
#[derive(Clone, Copy, PartialEq, Eq, Structural, Debug)]
pub enum Pickup {
    /// There was no card in play there.
    Ignored,
    /// The card was taken.
    Collected,
    /// The card was taken and it was the last one: the portal opened.
    PortalOpened,
}

/// The progress of one attempt at a level. Entry `i` of `kinds` and
/// `alive` describe sprite `i`.
pub struct World {
    pub level_idx: usize,
    pub kinds: Vec<Kind>,
    pub alive: Vec<bool>,
    pub cards_total: usize,
    pub cards_got: usize,
    pub dispelled: usize,
    pub portal_active: bool,
    /// The player's remaining light; spirits drain it.
    pub life: u32,
}

impl World {
    /// The counters agree with the sprites: `cards_total` counts cards,
    /// `cards_got` the cards taken, `dispelled` the spirits dispelled, and
    /// the portal is open exactly when the level has cards and all were
    /// taken.
    pub open spec fn wf(&self) -> bool {
        &&& self.kinds@.len() == self.alive@.len()
        &&& self.cards_total == count_kind(self.kinds@, Kind::Card)
        &&& self.cards_got == count_of(self.kinds@, self.alive@, Kind::Card, false)
        &&& self.dispelled == count_of(self.kinds@, self.alive@, Kind::Spirit, false)
        &&& self.portal_active == (self.cards_total > 0 && self.cards_got == self.cards_total)
        &&& self.life <= LIFE_MAX
    }

    /// A fresh attempt at level `idx`: one sprite per card, then one per
    /// spirit, then the portal, all in play; nothing collected, nothing
    /// dispelled, portal closed.
    pub fn new(idx: usize, level: &Level) -> (w: World)
        ensures
            w.wf(),
            fresh_world(w, idx as int, *level),
            count_kind(w.kinds@, Kind::Spirit) == level.spirits@.len(),
    {
        let nc = level.cards.len();
        let ns = level.spirits.len();
        let mut kinds: Vec<Kind> = Vec::new();
        let mut alive: Vec<bool> = Vec::new();
        let mut i: usize = 0;
        while i < nc
            invariant
                i <= nc,
                kinds@ == Seq::new(i as nat, |j: int| Kind::Card),
                alive@ == Seq::new(i as nat, |j: int| true),
                count_kind(kinds@, Kind::Card) == i,
                count_kind(kinds@, Kind::Spirit) == 0,
                count_of(kinds@, alive@, Kind::Card, false) == 0,
                count_of(kinds@, alive@, Kind::Spirit, false) == 0,
            decreases nc - i,
        {
            proof {
                lemma_count_push(kinds@, alive@, Kind::Card, true);
            }
            kinds.push(Kind::Card);
            alive.push(true);
            i = i + 1;
        }
        let mut j: usize = 0;
        while j < ns
            invariant
                j <= ns,
                kinds@ == Seq::new(nc as nat, |k: int| Kind::Card) + Seq::new(
                    j as nat,
                    |k: int| Kind::Spirit,
                ),
                alive@ == Seq::new(kinds@.len(), |k: int| true),
                count_kind(kinds@, Kind::Card) == nc,
                count_kind(kinds@, Kind::Spirit) == j,
                count_of(kinds@, alive@, Kind::Card, false) == 0,
                count_of(kinds@, alive@, Kind::Spirit, false) == 0,
            decreases ns - j,
        {
            proof {
                lemma_count_push(kinds@, alive@, Kind::Spirit, true);
            }
            kinds.push(Kind::Spirit);
            alive.push(true);
            j = j + 1;
        }
        proof {
            lemma_count_push(kinds@, alive@, Kind::Portal, true);
        }
        kinds.push(Kind::Portal);
        alive.push(true);
        assert(kinds@ == initial_kinds(nc as nat, ns as nat));
        assert(alive@ == Seq::new(kinds@.len(), |k: int| true));
        World {
            level_idx: idx,
            kinds,
            alive,
            cards_total: nc,
            cards_got: 0,
            dispelled: 0,
            portal_active: false,
            life: LIFE_MAX,
        }
    }

    /// Takes card `i` if it is a card still in play; taking the last card
    /// opens the portal.
    pub fn collect_card(&mut self, i: usize) -> (r: Pickup)
        requires
            old(self).wf(),
        ensures
            final(self).wf(),
            final(self).level_idx == old(self).level_idx,
            final(self).kinds@ == old(self).kinds@,
            final(self).dispelled == old(self).dispelled,
            final(self).cards_total == old(self).cards_total,
            final(self).life == old(self).life,
            ({
                let takes = i < old(self).kinds@.len() && old(self).kinds@[i as int] == Kind::Card
                    && old(self).alive@[i as int];
                &&& takes ==> final(self).alive@ == old(self).alive@.update(i as int, false)
                    && final(self).cards_got == old(self).cards_got + 1
                &&& !takes ==> *final(self) == *old(self)
                &&& r == (if !takes {
                    Pickup::Ignored
                } else if final(self).cards_got == final(self).cards_total {
                    Pickup::PortalOpened
                } else {
                    Pickup::Collected
                })
            }),
    {
        if i >= self.kinds.len() || self.kinds[i] != Kind::Card || !self.alive[i] {
            return Pickup::Ignored;
        }
        let _n = self.kinds.len();
        proof {
            lemma_count_split(self.kinds@, self.alive@, Kind::Card);
            lemma_count_update(self.kinds@, self.alive@, i as int, false, Kind::Card, false);
            lemma_count_update(self.kinds@, self.alive@, i as int, false, Kind::Card, true);
            lemma_count_update(self.kinds@, self.alive@, i as int, false, Kind::Spirit, false);
        }
        self.alive.set(i, false);
        self.cards_got = self.cards_got + 1;
        if self.cards_got == self.cards_total {
            self.portal_active = true;
            Pickup::PortalOpened
        } else {
            Pickup::Collected
        }
    }

    /// Dispels spirit `i` if it is a spirit still in play.
    pub fn dispel_spirit(&mut self, i: usize) -> (hit: bool)
        requires
            old(self).wf(),
        ensures
            final(self).wf(),
            hit == (i < old(self).kinds@.len() && old(self).kinds@[i as int] == Kind::Spirit
                && old(self).alive@[i as int]),
            hit ==> final(self).alive@ == old(self).alive@.update(i as int, false) && final(self).dispelled == old(self).dispelled + 1 && final(self).kinds@ == old(self).kinds@
                && final(self).level_idx == old(self).level_idx && final(self).life == old(
                self
            ).life && final(self).cards_got == old(self).cards_got && final(self).cards_total == old(self).cards_total && final(self).portal_active == old(self).portal_active,
            !hit ==> *final(self) == *old(self),
    {
        if i >= self.kinds.len() || self.kinds[i] != Kind::Spirit || !self.alive[i] {
            return false;
        }
        let _n = self.kinds.len();
        proof {
            lemma_count_split(self.kinds@, self.alive@, Kind::Spirit);
            lemma_count_update(self.kinds@, self.alive@, i as int, false, Kind::Card, false);
            lemma_count_update(self.kinds@, self.alive@, i as int, false, Kind::Spirit, false);
            lemma_count_update(self.kinds@, self.alive@, i as int, false, Kind::Spirit, true);
        }
        self.alive.set(i, false);
        self.dispelled = self.dispelled + 1;
        true
    }

    /// The number of spirits still in play.
    pub fn spirits_left(&self) -> (n: usize)
        requires
            self.wf(),
        ensures
            n == count_of(self.kinds@, self.alive@, Kind::Spirit, true),
    {
        let mut n: usize = 0;
        let mut i: usize = 0;
        while i < self.kinds.len()
            invariant
                self.wf(),
                i <= self.kinds@.len(),
                n == count_of(
                    self.kinds@.subrange(0, i as int),
                    self.alive@.subrange(0, i as int),
                    Kind::Spirit,
                    true,
                ),
                n <= i,
            decreases self.kinds@.len() - i,
        {
            let ghost ks = self.kinds@.subrange(0, i as int + 1);
            let ghost al = self.alive@.subrange(0, i as int + 1);
            assert(ks.drop_last() == self.kinds@.subrange(0, i as int));
            assert(al.drop_last() == self.alive@.subrange(0, i as int));
            if self.kinds[i] == Kind::Spirit && self.alive[i] {
                n = n + 1;
            }
            i = i + 1;
        }
        assert(self.kinds@.subrange(0, i as int) == self.kinds@);
        assert(self.alive@.subrange(0, i as int) == self.alive@);
        n
    }
}

/// In a consistent attempt no more cards are collected than the level
/// holds, and the portal is open only once every card is collected.
pub proof fn lemma_cards_bounded(w: World)
    requires
        w.wf(),
    ensures
        w.cards_got <= w.cards_total,
        w.portal_active ==> w.cards_got == w.cards_total && w.cards_total > 0,
{
    lemma_count_split(w.kinds@, w.alive@, Kind::Card);
}

/// No position of kind `k` is alive, so none is counted alive.
proof fn lemma_none_alive(kinds: Seq<Kind>, alive: Seq<bool>, k: Kind)
    requires
        kinds.len() == alive.len(),
        forall|i: int| 0 <= i < kinds.len() && kinds[i] == k ==> !alive[i],
    ensures
        count_of(kinds, alive, k, true) == 0,
    decreases kinds.len(),
{
    if kinds.len() > 0 {
        lemma_none_alive(kinds.drop_last(), alive.drop_last(), k);
    }
}

/// Once every card of a level that has cards is collected, the portal is
/// open.
pub proof fn lemma_all_cards_open_portal(w: World)
    requires
        w.wf(),
        w.cards_total > 0,
        forall|i: int| 0 <= i < w.kinds@.len() && w.kinds@[i] == Kind::Card ==> !w.alive@[i],
    ensures
        w.portal_active,
        w.cards_got == w.cards_total,
{
    lemma_none_alive(w.kinds@, w.alive@, Kind::Card);
    lemma_count_split(w.kinds@, w.alive@, Kind::Card);
}

/// The spirits still in play and the spirits dispelled together are all
/// the spirits of the attempt.
pub proof fn lemma_spirits_accounted(w: World)
    requires
        w.wf(),
    ensures
        count_of(w.kinds@, w.alive@, Kind::Spirit, true) + w.dispelled == count_kind(
            w.kinds@,
            Kind::Spirit,
        ),
{
    lemma_count_split(w.kinds@, w.alive@, Kind::Spirit);
}

/// The light the player starts each attempt with.
pub const LIFE_MAX: u32 = 100;

/// The light one spirit touch drains.
pub const SPIRIT_DRAIN: u32 = 20;

/// What a spirit's touch did.
#[derive(Clone, Copy, PartialEq, Eq, Structural, Debug)]
pub enum Touch {
    /// Not playing: nothing happened.
    Ignored,
    /// Light was drained and some is left.
    Hurt,
    /// The last light was drained: the level claims the player.
    Defeated,
}

/// Which screen the game shows.
#[derive(Clone, Copy, PartialEq, Eq, Structural, Debug)]
pub enum State {
    Menu,
    Playing,
    /// A level was just completed, with this many spirits dispelled.
    Success { dispelled: usize },
    /// Every level has been completed.
    Victory,
    /// The player's light ran out.
    Defeat,
}

/// What continuing from a result screen did.
#[derive(Clone, Copy, PartialEq, Eq, Structural, Debug)]
pub enum Proceed {
    /// Not on a result screen: nothing changed.
    Stay,
    /// Level `idx` begins.
    Next(usize),
    /// The last level was completed: the final screen shows.
    Victory,
    /// Back to the menu from the final screen.
    Menu,
    /// Level `idx` begins again after a defeat.
    Retry(usize),
}

/// The whole game: its levels, the screen shown, and the attempt in
/// progress.
pub struct Game {
    pub levels: Vec<Level>,
    pub state: State,
    pub world: Option<World>,
}

impl Game {
    /// At least one level; an attempt, when there is one, is consistent and
    /// belongs to an existing level; the play and result screens always
    /// have an attempt.
    pub open spec fn wf(&self) -> bool {
        &&& self.levels@.len() > 0
        &&& self.world matches Some(w) ==> w.wf() && w.level_idx < self.levels@.len()
        &&& (self.state == State::Playing || self.state is Success || self.state == State::Defeat)
            ==> self.world is Some
    }

    /// The number of levels.
    pub open spec fn n_levels(&self) -> int {
        self.levels@.len() as int
    }

    /// A game at the menu with no attempt yet.
    pub fn new(levels: Vec<Level>) -> (g: Game)
        requires
            levels@.len() > 0,
        ensures
            g.wf(),
            g.levels@ == levels@,
            g.state == State::Menu,
            g.world is None,
    {
        Game { levels, state: State::Menu, world: None }
    }

    /// Chooses a level on the menu: level `pick`, or the last level when
    /// `pick` is past it, begins afresh. Off the menu nothing happens.
    pub fn pick(&mut self, pick: usize) -> (started: Option<usize>)
        requires
            old(self).wf(),
        ensures
            final(self).wf(),
            final(self).levels@ == old(self).levels@,
            old(self).state == State::Menu ==> {
                let idx = if pick < old(self).n_levels() {
                    pick as int
                } else {
                    old(self).n_levels() - 1
                };
                &&& started == Some(idx as usize)
                &&& final(self).state == State::Playing
                &&& final(self).world is Some
                &&& fresh_world(final(self).world.unwrap(), idx, old(self).levels@[idx])
            },
            old(self).state != State::Menu ==> started is None && *final(self) == *old(self),
    {
        if self.state != State::Menu {
            return None;
        }
        let n = self.levels.len();
        let idx = if pick < n {
            pick
        } else {
            n - 1
        };
        let w = World::new(idx, &self.levels[idx]);
        self.world = Some(w);
        self.state = State::Playing;
        Some(idx)
    }

    /// The player stands in the portal: when playing with the portal open,
    /// the level is completed and the result screen records the spirits
    /// dispelled.
    pub fn reach_portal(&mut self) -> (done: bool)
        requires
            old(self).wf(),
        ensures
            final(self).wf(),
            done == (old(self).state == State::Playing && old(self).world is Some && old(
                self
            ).world.unwrap().portal_active),
            done ==> final(self).state == (State::Success {
                dispelled: old(self).world.unwrap().dispelled,
            }) && final(self).world == old(self).world && final(self).levels@ == old(self).levels@,
            !done ==> *final(self) == *old(self),
    {
        if self.state != State::Playing {
            return false;
        }
        match &self.world {
            Some(w) => {
                if w.portal_active {
                    let d = w.dispelled;
                    self.state = State::Success { dispelled: d };
                    true
                } else {
                    false
                }
            },
            None => false,
        }
    }

    /// Takes card `i` of the attempt in progress while playing.
    pub fn collect_card(&mut self, i: usize) -> (r: Pickup)
        requires
            old(self).wf(),
        ensures
            final(self).wf(),
            final(self).levels@ == old(self).levels@,
            final(self).state == old(self).state,
            old(self).state != State::Playing ==> r == Pickup::Ignored && *final(self) == *old(self),
            old(self).state == State::Playing ==> ({
                let w0 = old(self).world.unwrap();
                let w1 = final(self).world.unwrap();
                let takes = i < w0.kinds@.len() && w0.kinds@[i as int] == Kind::Card
                    && w0.alive@[i as int];
                &&& final(self).world is Some
                &&& w1.kinds@ == w0.kinds@
                &&& w1.level_idx == w0.level_idx
                &&& w1.dispelled == w0.dispelled
                &&& w1.life == w0.life
                &&& takes ==> w1.alive@ == w0.alive@.update(i as int, false) && w1.cards_got
                    == w0.cards_got + 1
                &&& !takes ==> w1 == w0
                &&& r == (if !takes {
                    Pickup::Ignored
                } else if w1.cards_got == w1.cards_total {
                    Pickup::PortalOpened
                } else {
                    Pickup::Collected
                })
            }),
    {
        if self.state != State::Playing {
            return Pickup::Ignored;
        }
        match self.world.take() {
            Some(mut w) => {
                let r = w.collect_card(i);
                self.world = Some(w);
                r
            },
            None => Pickup::Ignored,
        }
    }

    /// Dispels spirit `i` of the attempt in progress while playing.
    pub fn dispel_spirit(&mut self, i: usize) -> (hit: bool)
        requires
            old(self).wf(),
        ensures
            final(self).wf(),
            final(self).levels@ == old(self).levels@,
            final(self).state == old(self).state,
            hit == (old(self).state == State::Playing && ({
                let w0 = old(self).world.unwrap();
                i < w0.kinds@.len() && w0.kinds@[i as int] == Kind::Spirit && w0.alive@[i as int]
            })),
            hit ==> ({
                let w0 = old(self).world.unwrap();
                let w1 = final(self).world.unwrap();
                &&& final(self).world is Some
                &&& w1.alive@ == w0.alive@.update(i as int, false)
                &&& w1.dispelled == w0.dispelled + 1
                &&& w1.kinds@ == w0.kinds@
                &&& w1.level_idx == w0.level_idx
                &&& w1.cards_got == w0.cards_got
                &&& w1.portal_active == w0.portal_active
                &&& w1.life == w0.life
            }),
            !hit ==> *final(self) == *old(self),
    {
        if self.state != State::Playing {
            return false;
        }
        match self.world.take() {
            Some(mut w) => {
                let hit = w.dispel_spirit(i);
                self.world = Some(w);
                hit
            },
            None => false,
        }
    }

    /// A spirit touches the player while playing: it drains `SPIRIT_DRAIN`
    /// light (never below zero), and when no light is left the defeat
    /// screen shows.
    pub fn spirit_touch(&mut self) -> (r: Touch)
        requires
            old(self).wf(),
        ensures
            final(self).wf(),
            final(self).levels@ == old(self).levels@,
            old(self).state != State::Playing ==> r == Touch::Ignored && *final(self) == *old(self),
            old(self).state == State::Playing ==> ({
                let w0 = old(self).world.unwrap();
                let w1 = final(self).world.unwrap();
                let left = if w0.life > SPIRIT_DRAIN {
                    w0.life - SPIRIT_DRAIN
                } else {
                    0
                };
                &&& final(self).world is Some
                &&& w1 == World { life: left as u32, ..w0 }
                &&& left == 0 ==> r == Touch::Defeated && final(self).state == State::Defeat
                &&& left > 0 ==> r == Touch::Hurt && final(self).state == State::Playing
            }),
    {
        if self.state != State::Playing {
            return Touch::Ignored;
        }
        match self.world.take() {
            Some(mut w) => {
                w.life = if w.life > SPIRIT_DRAIN {
                    w.life - SPIRIT_DRAIN
                } else {
                    0
                };
                let dead = w.life == 0;
                self.world = Some(w);
                if dead {
                    self.state = State::Defeat;
                    Touch::Defeated
                } else {
                    Touch::Hurt
                }
            },
            None => Touch::Ignored,
        }
    }

    /// Continues from a result screen: after a level that is not the last,
    /// the next level begins afresh; after the last level the final screen
    /// shows; from the final screen the game returns to the menu; after a
    /// defeat the same level begins afresh.
    pub fn proceed(&mut self) -> (p: Proceed)
        requires
            old(self).wf(),
        ensures
            final(self).wf(),
            final(self).levels@ == old(self).levels@,
            old(self).state is Success ==> ({
                let idx = old(self).world.unwrap().level_idx;
                if idx + 1 == old(self).n_levels() {
                    &&& p == Proceed::Victory
                    &&& final(self).state == State::Victory
                    &&& final(self).world == old(self).world
                } else {
                    &&& p == Proceed::Next((idx + 1) as usize)
                    &&& final(self).state == State::Playing
                    &&& final(self).world is Some
                    &&& fresh_world(final(self).world.unwrap(), idx + 1, old(self).levels@[idx + 1])
                }
            }),
            old(self).state == State::Defeat ==> ({
                let idx = old(self).world.unwrap().level_idx;
                &&& p == Proceed::Retry(idx)
                &&& final(self).state == State::Playing
                &&& final(self).world is Some
                &&& fresh_world(final(self).world.unwrap(), idx as int, old(self).levels@[idx as int])
            }),
            old(self).state == State::Victory ==> p == Proceed::Menu && final(self).state
                == State::Menu && final(self).world == old(self).world,
            (old(self).state == State::Menu || old(self).state == State::Playing) ==> p
                == Proceed::Stay && *final(self) == *old(self),
    {
        let n = self.levels.len();
        match self.state {
            State::Success { .. } => {
                let idx = match &self.world {
                    Some(w) => w.level_idx,
                    None => {
                        return Proceed::Stay;
                    },
                };
                if idx + 1 == n {
                    self.state = State::Victory;
                    Proceed::Victory
                } else {
                    let next = idx + 1;
                    let w = World::new(next, &self.levels[next]);
                    self.world = Some(w);
                    self.state = State::Playing;
                    Proceed::Next(next)
                }
            },
            State::Victory => {
                self.state = State::Menu;
                Proceed::Menu
            },
            State::Defeat => {
                let idx = match &self.world {
                    Some(w) => w.level_idx,
                    None => {
                        return Proceed::Stay;
                    },
                };
                let w = World::new(idx, &self.levels[idx]);
                self.world = Some(w);
                self.state = State::Playing;
                Proceed::Retry(idx)
            },
            _ => Proceed::Stay,
        }
    }

    /// Escape: from play, a result screen or the defeat screen, back to the
    /// menu.
    pub fn escape(&mut self) -> (left: bool)
        requires
            old(self).wf(),
        ensures
            final(self).wf(),
            left == (old(self).state == State::Playing || old(self).state is Success || old(
                self
            ).state == State::Defeat),
            left ==> final(self).state == State::Menu && final(self).world == old(self).world
                && final(self).levels@ == old(self).levels@,
            !left ==> *final(self) == *old(self),
    {
        match self.state {
            State::Playing | State::Success { .. } | State::Defeat => {
                self.state = State::Menu;
                true
            },
            _ => false,
        }
    }
}

} // verus!
