//! Levels: the text grids that define each arcanum, their parsed cell
//! map, and breadth-first reachability over free cells.

use vstd::prelude::*;
use vstd::string::StrSliceExecFns;
use vstd::string::StringSliceAdditionalSpecFns;
use crate::textures::{lemma_row_major_index, lemma_row_major_injective};

verus! {

/// The part of a level definition that the game logic reads: its title,
/// subtitle, major-arcanum number, map rows and texture seed. Row glyphs: `1`..`5` wall kinds,
/// `P` spawn, `C` card, `S` spirit, `X` portal, anything else floor.
pub struct LevelDef {
    pub name: &'static str,
    pub subtitle: &'static str,
    /// The number of the major arcanum the level is drawn from.
    pub arcanum: u32,
    pub grid: Vec<&'static str>,
    pub seed: u32,
}

/// The number of The Hanged Man, the arcanum whose level inverts every
/// control.
pub const HANGED_MAN: u32 = 12;

impl LevelDef {
    /// The Hanged Man's curse: on its level every control is inverted.
    pub fn controls_inverted(&self) -> (inv: bool)
        ensures
            inv == (self.arcanum == HANGED_MAN),
    {
        self.arcanum == HANGED_MAN
    }
}

/// A parsed level. Positions are grid cells `(column, row)`; an entity
/// stands at the centre of its cell.
pub struct Level {
    pub w: usize,
    pub h: usize,
    /// Row-major cell kinds: 0 free, 1..=5 wall kind.
    pub cells: Vec<u8>,
    pub spawn: (usize, usize),
    pub cards: Vec<(usize, usize)>,
    pub spirits: Vec<(usize, usize)>,
    pub portal: (usize, usize),
}

/// The bytes of every row of a level definition.
pub open spec fn grid_rows(def: &LevelDef) -> Seq<Seq<u8>> {
    Seq::new(def.grid@.len(), |i: int| def.grid@[i].spec_bytes())
}

/// A grid is parseable when it has a first row and every row is as long
/// as the first.
pub open spec fn rectangular(rows: Seq<Seq<u8>>) -> bool {
    &&& rows.len() > 0
    &&& forall|i: int| 0 <= i < rows.len() ==> #[trigger] rows[i].len() == rows[0].len()
}

/// The cell kind a glyph stands for: its digit for `1`..`5`, else free.
pub open spec fn wall_code(b: u8) -> u8 {
    if 49u8 <= b <= 53u8 {
        (b - 48u8) as u8
    } else {
        0u8
    }
}

/// The cells of the first `n` bytes of row `y` that hold glyph `ch`, left
/// to right.
pub open spec fn row_hits(row: Seq<u8>, y: int, ch: u8, n: nat) -> Seq<(usize, usize)>
    decreases n,
{
    if n == 0 {
        Seq::empty()
    } else {
        let before = row_hits(row, y, ch, (n - 1) as nat);
        if row[n - 1] == ch {
            before.push(((n - 1) as usize, y as usize))
        } else {
            before
        }
    }
}

/// The cells of the first `m` rows that hold glyph `ch`, in reading order.
pub open spec fn grid_hits(rows: Seq<Seq<u8>>, ch: u8, m: nat) -> Seq<(usize, usize)>
    decreases m,
{
    if m == 0 {
        Seq::empty()
    } else {
        grid_hits(rows, ch, (m - 1) as nat) + row_hits(rows[m - 1], m - 1, ch, rows[m - 1].len())
    }
}

/// The last element of `s`, or `d` when `s` is empty.
pub open spec fn last_or(s: Seq<(usize, usize)>, d: (usize, usize)) -> (usize, usize) {
    if s.len() == 0 {
        d
    } else {
        s.last()
    }
}

/// Where the spawn and the portal go when the grid has no glyph for them.
pub open spec fn default_cell() -> (usize, usize) {
    (1usize, 1usize)
}

impl Level {
    /// One cell kind per grid position.
    pub open spec fn wf(&self) -> bool {
        self.cells@.len() == self.w * self.h
    }

    /// Whether the cell `(x, y)` lies inside the grid.
    pub open spec fn in_grid(&self, x: int, y: int) -> bool {
        0 <= x < self.w && 0 <= y < self.h
    }

    /// The kind of cell `(x, y)`; everything outside the grid is wall 1.
    pub open spec fn cell_at(&self, x: int, y: int) -> u8 {
        if self.in_grid(x, y) {
            self.cells@[y * self.w + x]
        } else {
            1u8
        }
    }

    /// Whether a walker may stand on cell `(x, y)`.
    pub open spec fn free(&self, x: int, y: int) -> bool {
        self.cell_at(x, y) == 0
    }

    /// Spawn, cards, spirits and portal all stand on cells of the grid.
    pub open spec fn items_in_grid(&self) -> bool {
        &&& self.in_grid(self.spawn.0 as int, self.spawn.1 as int)
        &&& self.in_grid(self.portal.0 as int, self.portal.1 as int)
        &&& forall|i: int|
            0 <= i < self.cards@.len() ==> self.in_grid(
                #[trigger] self.cards@[i].0 as int,
                self.cards@[i].1 as int,
            )
        &&& forall|i: int|
            0 <= i < self.spirits@.len() ==> self.in_grid(
                #[trigger] self.spirits@[i].0 as int,
                self.spirits@[i].1 as int,
            )
    }

    /// Reads a level definition: wall digits become cell kinds, `C` and `S`
    /// glyphs become cards and spirits in reading order, and the last `P`
    /// and `X` glyphs give the spawn and the portal (cell `(1, 1)` when
    /// absent).
    pub fn parse(def: &LevelDef) -> (lv: Level)
        requires
            rectangular(grid_rows(def)),
            grid_rows(def)[0].len() * grid_rows(def).len() <= usize::MAX,
        ensures
            lv.w == grid_rows(def)[0].len(),
            lv.h == grid_rows(def).len(),
            lv.wf(),
            forall|x: int, y: int|
                0 <= x < lv.w && 0 <= y < lv.h ==> #[trigger] lv.cells@[y * lv.w + x]
                    == wall_code(grid_rows(def)[y][x]),
            lv.spawn == last_or(grid_hits(grid_rows(def), 80u8, lv.h as nat), default_cell()),
            lv.cards@ == grid_hits(grid_rows(def), 67u8, lv.h as nat),
            lv.spirits@ == grid_hits(grid_rows(def), 83u8, lv.h as nat),
            lv.portal == last_or(grid_hits(grid_rows(def), 88u8, lv.h as nat), default_cell()),
            lv.w >= 2 && lv.h >= 2 ==> lv.items_in_grid(),
    {
        let ghost rows = grid_rows(def);
        let h = def.grid.len();
        let first = def.grid[0].as_bytes_vec();
        let w = first.len();
        let mut cells: Vec<u8> = Vec::new();
        let mut spawn: (usize, usize) = (1, 1);
        let mut cards: Vec<(usize, usize)> = Vec::new();
        let mut spirits: Vec<(usize, usize)> = Vec::new();
        let mut portal: (usize, usize) = (1, 1);
        let mut y: usize = 0;
        while y < h
            invariant
                h == rows.len(),
                w == rows[0].len(),
                rectangular(rows),
                rows == grid_rows(def),
                w * h <= usize::MAX,
                y <= h,
                cells@.len() == y * w,
                forall|yy: int, xx: int|
                    0 <= yy < y && 0 <= xx < w ==> #[trigger] cells@[yy * w + xx] == wall_code(
                        rows[yy][xx],
                    ),
                spawn == last_or(grid_hits(rows, 80u8, y as nat), default_cell()),
                cards@ == grid_hits(rows, 67u8, y as nat),
                spirits@ == grid_hits(rows, 83u8, y as nat),
                portal == last_or(grid_hits(rows, 88u8, y as nat), default_cell()),
            decreases h - y,
        {
            let row = def.grid[y].as_bytes_vec();
            assert(row@ == rows[y as int]);
            assert(rows[y as int].len() == w);
            proof {
                assert((y + 1) * w <= w * h) by (nonlinear_arith)
                    requires
                        y < h,
                ;
                assert((y + 1) * w == y * w + w) by (nonlinear_arith);
            }
            let ghost cards0 = cards@;
            let ghost spirits0 = spirits@;
            let ghost spawn_seq = grid_hits(rows, 80u8, y as nat);
            let ghost portal_seq = grid_hits(rows, 88u8, y as nat);
            let mut x: usize = 0;
            while x < w
                invariant
                    h == rows.len(),
                    w == rows[0].len(),
                    rectangular(rows),
                    y < h,
                    (y + 1) * w == y * w + w,
                    (y + 1) * w <= usize::MAX,
                    row@ == rows[y as int],
                    x <= w,
                    cells@.len() == y * w + x,
                    forall|yy: int, xx: int|
                        0 <= yy < y && 0 <= xx < w ==> #[trigger] cells@[yy * w + xx]
                            == wall_code(rows[yy][xx]),
                    forall|xx: int|
                        0 <= xx < x ==> #[trigger] cells@[y * w + xx] == wall_code(
                            rows[y as int][xx],
                        ),
                    spawn == last_or(
                        spawn_seq + row_hits(rows[y as int], y as int, 80u8, x as nat),
                        default_cell(),
                    ),
                    cards@ == cards0 + row_hits(rows[y as int], y as int, 67u8, x as nat),
                    spirits@ == spirits0 + row_hits(rows[y as int], y as int, 83u8, x as nat),
                    portal == last_or(
                        portal_seq + row_hits(rows[y as int], y as int, 88u8, x as nat),
                        default_cell(),
                    ),
                decreases w - x,
            {
                let ch = row[x];
                let code: u8 = if 49u8 <= ch && ch <= 53u8 {
                    ch - 48u8
                } else {
                    0u8
                };
                let ghost old_cells = cells@;
                cells.push(code);
                proof {
                    assert forall|yy: int, xx: int|
                        0 <= yy < y && 0 <= xx < w implies #[trigger] cells@[yy * w + xx]
                        == wall_code(rows[yy][xx]) by {
                        assert(yy * w + xx < y * w) by (nonlinear_arith)
                            requires
                                0 <= yy < y,
                                0 <= xx < w,
                        ;
                        assert(cells@[yy * w + xx] == old_cells[yy * w + xx]);
                    }
                }
                if ch == 80u8 {
                    spawn = (x, y);
                } else if ch == 67u8 {
                    cards.push((x, y));
                } else if ch == 83u8 {
                    spirits.push((x, y));
                } else if ch == 88u8 {
                    portal = (x, y);
                }
                proof {
                    let s1 = spawn_seq + row_hits(rows[y as int], y as int, 80u8, x as nat);
                    let s2 = spawn_seq + row_hits(rows[y as int], y as int, 80u8, (x + 1) as nat);
                    let p1 = portal_seq + row_hits(rows[y as int], y as int, 88u8, x as nat);
                    let p2 = portal_seq + row_hits(rows[y as int], y as int, 88u8, (x + 1) as nat);
                    if ch == 80u8 {
                        assert(s2 == s1.push((x, y)));
                    } else {
                        assert(s2 == s1);
                    }
                    if ch == 88u8 {
                        assert(p2 == p1.push((x, y)));
                    } else {
                        assert(p2 == p1);
                    }
                    assert(cards0 + row_hits(rows[y as int], y as int, 67u8, (x + 1) as nat) == (if ch
                        == 67u8 {
                        (cards0 + row_hits(rows[y as int], y as int, 67u8, x as nat)).push((x, y))
                    } else {
                        cards0 + row_hits(rows[y as int], y as int, 67u8, x as nat)
                    }));
                    assert(spirits0 + row_hits(rows[y as int], y as int, 83u8, (x + 1) as nat) == (
                    if ch == 83u8 {
                        (spirits0 + row_hits(rows[y as int], y as int, 83u8, x as nat)).push((x, y))
                    } else {
                        spirits0 + row_hits(rows[y as int], y as int, 83u8, x as nat)
                    }));
                }
                x = x + 1;
            }
            proof {
                assert forall|yy: int, xx: int|
                    0 <= yy < y + 1 && 0 <= xx < w implies #[trigger] cells@[yy * w + xx]
                    == wall_code(rows[yy][xx]) by {
                    if yy == y {
                        assert(cells@[y * w + xx] == wall_code(rows[y as int][xx]));
                    }
                }
                assert(grid_hits(rows, 80u8, (y + 1) as nat) == spawn_seq + row_hits(
                    rows[y as int],
                    y as int,
                    80u8,
                    w as nat,
                ));
                assert(grid_hits(rows, 88u8, (y + 1) as nat) == portal_seq + row_hits(
                    rows[y as int],
                    y as int,
                    88u8,
                    w as nat,
                ));
            }
            y = y + 1;
        }
        assert(h * w == w * h) by (nonlinear_arith);
        proof {
            lemma_grid_hits_bounds(rows, 67u8, h as nat, w as nat);
            lemma_grid_hits_bounds(rows, 83u8, h as nat, w as nat);
            lemma_grid_hits_bounds(rows, 80u8, h as nat, w as nat);
            lemma_grid_hits_bounds(rows, 88u8, h as nat, w as nat);
        }
        Level { w, h, cells, spawn, cards, spirits, portal }
    }

    /// The kind of cell `(x, y)`: its wall kind or 0, and wall 1 for any
    /// cell outside the grid.
    pub fn cell(&self, x: i32, y: i32) -> (c: u8)
        requires
            self.wf(),
        ensures
            c == self.cell_at(x as int, y as int),
    {
        if x < 0 || y < 0 {
            return 1;
        }
        let ux = x as usize;
        let uy = y as usize;
        if ux >= self.w || uy >= self.h {
            return 1;
        }
        let _n = self.cells.len();
        proof {
            lemma_row_major_index(self.w as int, self.h as int, ux as int, uy as int);
        }
        self.cells[uy * self.w + ux]
    }

    /// Whether cell `(x, y)` blocks movement (the caller passes the cell
    /// that holds a world position, i.e. its coordinates rounded down).
    pub fn solid(&self, x: i32, y: i32) -> (b: bool)
        requires
            self.wf(),
        ensures
            b == !self.free(x as int, y as int),
    {
        self.cell(x, y) != 0
    }
}

/// Every hit of a row scan lies in that row, before the scanned length.
proof fn lemma_row_hits_bounds(row: Seq<u8>, y: int, ch: u8, n: nat)
    requires
        0 <= y <= usize::MAX,
        n <= usize::MAX + 1,
    ensures
        forall|i: int|
            0 <= i < row_hits(row, y, ch, n).len() ==> (#[trigger] row_hits(row, y, ch, n)[i]).0
                < n && row_hits(row, y, ch, n)[i].1 == y,
    decreases n,
{
    if n > 0 {
        lemma_row_hits_bounds(row, y, ch, (n - 1) as nat);
        let before = row_hits(row, y, ch, (n - 1) as nat);
        let all = row_hits(row, y, ch, n);
        assert forall|i: int| 0 <= i < all.len() implies (#[trigger] all[i]).0 < n && all[i].1
            == y by {
            if i < before.len() {
                assert(all[i] == before[i]);
            }
        }
    }
}

/// Every hit of a scan of the first `m` rows of a grid `w` wide lies
/// inside those rows.
proof fn lemma_grid_hits_bounds(rows: Seq<Seq<u8>>, ch: u8, m: nat, w: nat)
    requires
        m <= rows.len(),
        rows.len() <= usize::MAX,
        w <= usize::MAX,
        forall|i: int| 0 <= i < rows.len() ==> #[trigger] rows[i].len() == w,
    ensures
        forall|i: int|
            0 <= i < grid_hits(rows, ch, m).len() ==> (#[trigger] grid_hits(rows, ch, m)[i]).0 < w
                && grid_hits(rows, ch, m)[i].1 < m,
    decreases m,
{
    if m > 0 {
        lemma_grid_hits_bounds(rows, ch, (m - 1) as nat, w);
        let a = grid_hits(rows, ch, (m - 1) as nat);
        let b = row_hits(rows[m - 1], m - 1, ch, rows[m - 1].len());
        lemma_row_hits_bounds(rows[m - 1], m - 1, ch, rows[m - 1].len());
        assert forall|i: int| 0 <= i < (a + b).len() implies (#[trigger] (a + b)[i]).0 < w && (a
            + b)[i].1 < m by {
            if i >= a.len() {
                assert((a + b)[i] == b[i - a.len()]);
            }
        }
    }
}

/// Two cells are adjacent when they differ by one step along one axis.
pub open spec fn adjacent(a: (int, int), b: (int, int)) -> bool {
    ||| a.0 == b.0 && (a.1 == b.1 + 1 || b.1 == a.1 + 1)
    ||| a.1 == b.1 && (a.0 == b.0 + 1 || b.0 == a.0 + 1)
}

/// The number of `false` entries of a sequence.
pub open spec fn count_false(s: Seq<bool>) -> nat
    decreases s.len(),
{
    if s.len() == 0 {
        0
    } else {
        count_false(s.drop_last()) + (if s.last() {
            0nat
        } else {
            1nat
        })
    }
}

/// Marking an unmarked entry lowers the number of unmarked entries by one.
proof fn lemma_count_false_mark(s: Seq<bool>, i: int)
    requires
        0 <= i < s.len(),
        !s[i],
    ensures
        count_false(s.update(i, true)) + 1 == count_false(s),
    decreases s.len(),
{
    let t = s.update(i, true);
    if i == s.len() - 1 {
        assert(t.drop_last() == s.drop_last());
    } else {
        lemma_count_false_mark(s.drop_last(), i);
        assert(t.drop_last() == s.drop_last().update(i, true));
    }
}

impl Level {
    /// A walk: a non-empty cell sequence whose every step after the first
    /// moves to an adjacent free cell.
    pub open spec fn is_walk(&self, p: Seq<(int, int)>) -> bool {
        &&& p.len() > 0
        &&& forall|i: int|
            #![trigger p[i]]
            1 <= i < p.len() ==> self.free(p[i].0, p[i].1) && adjacent(p[i - 1], p[i])
    }

    /// Cell `t` can be walked to from cell `s` through free cells.
    pub open spec fn reachable(&self, s: (int, int), t: (int, int)) -> bool {
        exists|p: Seq<(int, int)>| #[trigger] self.is_walk(p) && p[0] == s && p.last() == t
    }

    /// The mark that a visit map holds for cell `(x, y)`.
    pub open spec fn seen(&self, vis: Seq<bool>, x: int, y: int) -> bool {
        vis[y * self.w + x]
    }

    /// Every free neighbour of cell `c` is marked in `vis`.
    pub open spec fn expanded(&self, vis: Seq<bool>, c: (usize, usize)) -> bool {
        let (x, y) = (c.0 as int, c.1 as int);
        &&& self.free(x + 1, y) ==> self.seen(vis, x + 1, y)
        &&& self.free(x - 1, y) ==> self.seen(vis, x - 1, y)
        &&& self.free(x, y + 1) ==> self.seen(vis, x, y + 1)
        &&& self.free(x, y - 1) ==> self.seen(vis, x, y - 1)
    }

    /// The search state is consistent: queued cells are marked grid cells,
    /// every marked cell was queued, and every marked cell is reachable
    /// from `s`.
    pub open spec fn search_inv(&self, s: (int, int), vis: Seq<bool>, queue: Seq<(usize, usize)>) -> bool {
        &&& vis.len() == self.w * self.h
        &&& forall|i: int|
            #![trigger queue[i]]
            0 <= i < queue.len() ==> self.in_grid(queue[i].0 as int, queue[i].1 as int)
                && self.seen(vis, queue[i].0 as int, queue[i].1 as int)
        &&& forall|x: int, y: int|
            self.in_grid(x, y) && #[trigger] self.seen(vis, x, y) ==> exists|i: int|
                0 <= i < queue.len() && #[trigger] queue[i] == (x as usize, y as usize)
        &&& forall|x: int, y: int|
            self.in_grid(x, y) && #[trigger] self.seen(vis, x, y) ==> self.reachable(s, (x, y))
    }

    /// Marks cell `(nx, ny)`, a grid neighbour of the marked cell `from`,
    /// and queues it when it is free and not yet marked.
    fn visit(
        &self,
        nx: usize,
        ny: usize,
        vis: &mut Vec<bool>,
        queue: &mut Vec<(usize, usize)>,
        Ghost(s): Ghost<(int, int)>,
        Ghost(from): Ghost<(int, int)>,
    )
        requires
            self.wf(),
            self.in_grid(nx as int, ny as int),
            self.search_inv(s, old(vis)@, old(queue)@),
            self.in_grid(from.0, from.1),
            self.seen(old(vis)@, from.0, from.1),
            adjacent(from, (nx as int, ny as int)),
        ensures
            self.search_inv(s, final(vis)@, final(queue)@),
            self.free(nx as int, ny as int) ==> self.seen(final(vis)@, nx as int, ny as int),
            forall|k: int| 0 <= k < old(vis)@.len() && #[trigger] old(vis)@[k] ==> final(vis)@[k],
            final(queue)@.len() >= old(queue)@.len(),
            forall|i: int| 0 <= i < old(queue)@.len() ==> #[trigger] final(queue)@[i] == old(queue)@[i],
            count_false(final(vis)@) + final(queue)@.len() == count_false(old(vis)@) + old(
                queue,
            )@.len(),
    {
        let _n = self.cells.len();
        proof {
            lemma_row_major_index(self.w as int, self.h as int, nx as int, ny as int);
        }
        let i = ny * self.w + nx;
        if self.cells[i] == 0 && !vis[i] {
            let ghost vis0 = vis@;
            let ghost queue0 = queue@;
            proof {
                let p = choose|p: Seq<(int, int)>|
                    #[trigger] self.is_walk(p) && p[0] == s && p.last() == from;
                let p2 = p.push((nx as int, ny as int));
                assert(self.is_walk(p2)) by {
                    assert forall|k: int| #![trigger p2[k]] 1 <= k < p2.len() implies self.free(
                        p2[k].0,
                        p2[k].1,
                    ) && adjacent(p2[k - 1], p2[k]) by {
                        if k < p.len() {
                            assert(p2[k] == p[k]);
                            assert(p2[k - 1] == p[k - 1]);
                        }
                    }
                }
                assert(p2[0] == s && p2.last() == (nx as int, ny as int));
                lemma_count_false_mark(vis0, i as int);
            }
            vis.set(i, true);
            queue.push((nx, ny));
            proof {
                assert forall|x: int, y: int|
                    self.in_grid(x, y) && #[trigger] self.seen(vis@, x, y) implies exists|j: int|
                    0 <= j < queue@.len() && #[trigger] queue@[j] == (x as usize, y as usize) by {
                    if x == nx && y == ny {
                        assert(queue@[queue@.len() - 1] == (x as usize, y as usize));
                    } else {
                        lemma_row_major_index(self.w as int, self.h as int, x, y);
                        if y * self.w + x == i {
                            lemma_row_major_injective(self.w as int, x, y, nx as int, ny as int);
                        }
                        assert(self.seen(vis0, x, y));
                        let j = choose|j: int|
                            0 <= j < queue0.len() && #[trigger] queue0[j] == (x as usize, y as usize);
                        assert(queue@[j] == queue0[j]);
                    }
                }
                assert forall|x: int, y: int|
                    self.in_grid(x, y) && #[trigger] self.seen(vis@, x, y) implies self.reachable(
                    s,
                    (x, y),
                ) by {
                    if !(x == nx && y == ny) {
                        lemma_row_major_index(self.w as int, self.h as int, x, y);
                        if y * self.w + x == i {
                            lemma_row_major_injective(self.w as int, x, y, nx as int, ny as int);
                        }
                        assert(self.seen(vis0, x, y));
                    }
                }
                assert forall|j: int| #![trigger queue@[j]] 0 <= j < queue@.len() implies self.in_grid(
                    queue@[j].0 as int,
                    queue@[j].1 as int,
                ) && self.seen(vis@, queue@[j].0 as int, queue@[j].1 as int) by {
                    if j < queue0.len() {
                        assert(queue@[j] == queue0[j]);
                        let (qx, qy) = (queue0[j].0 as int, queue0[j].1 as int);
                        lemma_row_major_index(self.w as int, self.h as int, qx, qy);
                    }
                }
            }
        }
    }

    /// The cells reachable from `start`: entry `y * w + x` of the result is
    /// set exactly when cell `(x, y)` can be walked to from `start`
    /// (breadth-first search over the four axis neighbours).
    pub fn reachable_map(&self, start: (usize, usize)) -> (vis: Vec<bool>)
        requires
            self.wf(),
            self.in_grid(start.0 as int, start.1 as int),
        ensures
            vis@.len() == self.w * self.h,
            forall|x: int, y: int|
                self.in_grid(x, y) ==> (#[trigger] self.seen(vis@, x, y) <==> self.reachable(
                    (start.0 as int, start.1 as int),
                    (x, y),
                )),
    {
        let ghost s = (start.0 as int, start.1 as int);
        let w = self.w;
        let n = self.cells.len();
        let mut vis: Vec<bool> = Vec::new();
        let mut k: usize = 0;
        while k < n
            invariant
                k <= n,
                vis@.len() == k,
                forall|j: int| 0 <= j < k ==> !#[trigger] vis@[j],
            decreases n - k,
        {
            vis.push(false);
            k = k + 1;
        }
        proof {
            lemma_row_major_index(self.w as int, self.h as int, start.0 as int, start.1 as int);
        }
        let si = start.1 * w + start.0;
        vis.set(si, true);
        let mut queue: Vec<(usize, usize)> = Vec::new();
        queue.push(start);
        proof {
            assert(self.is_walk(seq![s]));
            assert(seq![s][0] == s && seq![s].last() == s);
            assert forall|x: int, y: int|
                self.in_grid(x, y) && #[trigger] self.seen(vis@, x, y) implies x == start.0 && y
                == start.1 by {
                lemma_row_major_index(self.w as int, self.h as int, x, y);
                if y * self.w + x != si {
                    assert(!vis@[y * self.w + x]);
                } else {
                    lemma_row_major_injective(self.w as int, x, y, start.0 as int, start.1 as int);
                }
            }
            assert(queue@[0] == start);
        }
        let mut head: usize = 0;
        while head < queue.len()
            invariant
                self.wf(),
                w == self.w,
                self.in_grid(start.0 as int, start.1 as int),
                s == (start.0 as int, start.1 as int),
                self.search_inv(s, vis@, queue@),
                self.seen(vis@, s.0, s.1),
                head <= queue@.len(),
                forall|i: int| 0 <= i < head ==> #[trigger] self.expanded(vis@, queue@[i]),
            decreases 2 * count_false(vis@) + queue@.len() - head,
        {
            let c = queue[head];
            let (x, y) = c;
            let ghost vis_a = vis@;
            let ghost queue_a = queue@;
            head = head + 1;
            proof {
                lemma_row_major_index(self.w as int, self.h as int, x as int, y as int);
            }
            if x + 1 < self.w {
                self.visit(x + 1, y, &mut vis, &mut queue, Ghost(s), Ghost((x as int, y as int)));
            }
            if x > 0 {
                assert(self.seen(vis@, x as int, y as int));
                self.visit(x - 1, y, &mut vis, &mut queue, Ghost(s), Ghost((x as int, y as int)));
            }
            if y + 1 < self.h {
                assert(self.seen(vis@, x as int, y as int));
                self.visit(x, y + 1, &mut vis, &mut queue, Ghost(s), Ghost((x as int, y as int)));
            }
            if y > 0 {
                assert(self.seen(vis@, x as int, y as int));
                self.visit(x, y - 1, &mut vis, &mut queue, Ghost(s), Ghost((x as int, y as int)));
            }
            proof {
                lemma_row_major_index(self.w as int, self.h as int, x as int, y as int);
                lemma_row_major_index(self.w as int, self.h as int, s.0, s.1);
                assert forall|i: int| 0 <= i < head implies #[trigger] self.expanded(
                    vis@,
                    queue@[i],
                ) by {
                    assert(queue@[i] == queue_a[i]);
                    let (qx, qy) = (queue_a[i].0 as int, queue_a[i].1 as int);
                    if i < head - 1 {
                        assert(self.expanded(vis_a, queue_a[i]));
                    }
                    if self.free(qx + 1, qy) {
                        lemma_row_major_index(self.w as int, self.h as int, qx + 1, qy);
                    }
                    if self.free(qx - 1, qy) {
                        lemma_row_major_index(self.w as int, self.h as int, qx - 1, qy);
                    }
                    if self.free(qx, qy + 1) {
                        lemma_row_major_index(self.w as int, self.h as int, qx, qy + 1);
                    }
                    if self.free(qx, qy - 1) {
                        lemma_row_major_index(self.w as int, self.h as int, qx, qy - 1);
                    }
                }
            }
        }
        proof {
            assert forall|x: int, y: int|
                self.in_grid(x, y) && #[trigger] self.seen(vis@, x, y) implies self.expanded(
                vis@,
                (x as usize, y as usize),
            ) by {
                let j = choose|j: int|
                    0 <= j < queue@.len() && #[trigger] queue@[j] == (x as usize, y as usize);
                assert(self.expanded(vis@, queue@[j]));
            }
            assert forall|x: int, y: int|
                self.in_grid(x, y) && self.reachable(s, (x, y)) implies #[trigger] self.seen(
                vis@,
                x,
                y,
            ) by {
                let p = choose|p: Seq<(int, int)>|
                    #[trigger] self.is_walk(p) && p[0] == s && p.last() == (x, y);
                self.lemma_walk_marked(vis@, p, (p.len() - 1) as nat);
            }
        }
        vis
    }

    /// In a visit map closed under free neighbours, every cell of a walk
    /// that starts on a marked grid cell is marked.
    proof fn lemma_walk_marked(&self, vis: Seq<bool>, p: Seq<(int, int)>, k: nat)
        requires
            self.is_walk(p),
            k < p.len(),
            self.in_grid(p[0].0, p[0].1),
            self.seen(vis, p[0].0, p[0].1),
            forall|x: int, y: int|
                self.in_grid(x, y) && #[trigger] self.seen(vis, x, y) ==> self.expanded(
                    vis,
                    (x as usize, y as usize),
                ),
        ensures
            self.in_grid(p[k as int].0, p[k as int].1),
            self.seen(vis, p[k as int].0, p[k as int].1),
        decreases k,
    {
        if k > 0 {
            self.lemma_walk_marked(vis, p, (k - 1) as nat);
            let a = p[k - 1];
            let b = p[k as int];
            assert(self.free(b.0, b.1) && adjacent(a, b));
            assert(self.expanded(vis, (a.0 as usize, a.1 as usize)));
        }
    }

    /// The level can be completed: it holds exactly three cards, and every
    /// card, every spirit and the portal can be walked to from the spawn.
    pub fn check_reachable(&self) -> (ok: bool)
        requires
            self.wf(),
            self.items_in_grid(),
        ensures
            ok == {
                let s = (self.spawn.0 as int, self.spawn.1 as int);
                &&& self.cards@.len() == 3
                &&& forall|i: int|
                    0 <= i < self.cards@.len() ==> self.reachable(
                        s,
                        (#[trigger] self.cards@[i].0 as int, self.cards@[i].1 as int),
                    )
                &&& forall|i: int|
                    0 <= i < self.spirits@.len() ==> self.reachable(
                        s,
                        (#[trigger] self.spirits@[i].0 as int, self.spirits@[i].1 as int),
                    )
                &&& self.reachable(s, (self.portal.0 as int, self.portal.1 as int))
            },
    {
        let ghost s = (self.spawn.0 as int, self.spawn.1 as int);
        let vis = self.reachable_map(self.spawn);
        if self.cards.len() != 3 {
            return false;
        }
        let mut i: usize = 0;
        while i < self.cards.len()
            invariant
                self.wf(),
                self.items_in_grid(),
                s == (self.spawn.0 as int, self.spawn.1 as int),
                vis@.len() == self.w * self.h,
                forall|x: int, y: int|
                    self.in_grid(x, y) ==> (#[trigger] self.seen(vis@, x, y) <==> self.reachable(
                        s,
                        (x, y),
                    )),
                i <= self.cards@.len(),
                forall|j: int|
                    0 <= j < i ==> self.reachable(
                        s,
                        (#[trigger] self.cards@[j].0 as int, self.cards@[j].1 as int),
                    ),
            decreases self.cards@.len() - i,
        {
            let (cx, cy) = self.cards[i];
            assert(self.in_grid(self.cards@[i as int].0 as int, self.cards@[i as int].1 as int));
            if !self.reached(&vis, cx, cy) {
                return false;
            }
            i = i + 1;
        }
        let mut i: usize = 0;
        while i < self.spirits.len()
            invariant
                self.wf(),
                self.items_in_grid(),
                s == (self.spawn.0 as int, self.spawn.1 as int),
                vis@.len() == self.w * self.h,
                forall|x: int, y: int|
                    self.in_grid(x, y) ==> (#[trigger] self.seen(vis@, x, y) <==> self.reachable(
                        s,
                        (x, y),
                    )),
                i <= self.spirits@.len(),
                forall|j: int|
                    0 <= j < i ==> self.reachable(
                        s,
                        (#[trigger] self.spirits@[j].0 as int, self.spirits@[j].1 as int),
                    ),
            decreases self.spirits@.len() - i,
        {
            let (sx, sy) = self.spirits[i];
            assert(self.in_grid(
                self.spirits@[i as int].0 as int,
                self.spirits@[i as int].1 as int,
            ));
            if !self.reached(&vis, sx, sy) {
                return false;
            }
            i = i + 1;
        }
        self.reached(&vis, self.portal.0, self.portal.1)
    }

    /// The mark of grid cell `(x, y)` in a visit map.
    fn reached(&self, vis: &Vec<bool>, x: usize, y: usize) -> (r: bool)
        requires
            self.wf(),
            self.in_grid(x as int, y as int),
            vis@.len() == self.w * self.h,
        ensures
            r == self.seen(vis@, x as int, y as int),
    {
        let _n = self.cells.len();
        proof {
            lemma_row_major_index(self.w as int, self.h as int, x as int, y as int);
        }
        vis[y * self.w + x]
    }
}

/// The map of arcanum 0, The Fool: a bright cliff-top maze of four
/// walled enclosures.
pub open spec fn fool_grid() -> Seq<&'static str> {
    seq![
        "11111111111111111111",
        "1....S...1.......C.1",
        "1.22222..1..33333..1",
        "1.2...2..1..3...3..1",
        "1.2.C.2.....3...3..1",
        "1.2...2..1..33.33..1",
        "1.22.22..1......S..1",
        "1......S.1..44444..1",
        "1.55555..1..4...4..1",
        "1.5...5..1..4.X.4..1",
        "1.5.C.5.....4...4..1",
        "1.5...5..1..44.44..1",
        "1.55.55..1......S..1",
        "1P.......1.........1",
        "11111111111111111111",
    ]
}

/// Arcanum 0, The Fool: the beginning of the journey.
pub fn level_fool() -> (def: LevelDef)
    ensures
        def.name@ == "THE FOOL"@,
        def.subtitle@ == "0 - El comienzo del viaje"@,
        def.arcanum == 0,
        def.grid@ == fool_grid(),
        def.seed == 11,
{
    let grid: Vec<&'static str> = vec![
        "11111111111111111111",
        "1....S...1.......C.1",
        "1.22222..1..33333..1",
        "1.2...2..1..3...3..1",
        "1.2.C.2.....3...3..1",
        "1.2...2..1..33.33..1",
        "1.22.22..1......S..1",
        "1......S.1..44444..1",
        "1.55555..1..4...4..1",
        "1.5...5..1..4.X.4..1",
        "1.5.C.5.....4...4..1",
        "1.5...5..1..44.44..1",
        "1.55.55..1......S..1",
        "1P.......1.........1",
        "11111111111111111111",
    ];
    LevelDef { name: "THE FOOL", subtitle: "0 - El comienzo del viaje", arcanum: 0, grid, seed: 11 }
}

/// The map of arcanum XII, The Hanged Man: nested suspended rings around
/// the portal.
pub open spec fn hanged_man_grid() -> Seq<&'static str> {
    seq![
        "11111111111111111111",
        "1P........S.......C1",
        "1.2222222.22222222.1",
        "1.2..............2.1",
        "1.2.333333.33333.2.1",
        "1.2.3..........3.2.1",
        "1.2.3.44444444.3.2.1",
        "1...3.4..X...4.3...1",
        "1.2.3.4444.444.3.2.1",
        "1.2.3..C.......3.2.1",
        "1.2.3333.333333S.2.1",
        "1.2..5........5..2.1",
        "1.2222222.2222222S.1",
        "1..C.....S.........1",
        "11111111111111111111",
    ]
}

/// Arcanum XII, The Hanged Man: the world seen upside down.
pub fn level_hanged_man() -> (def: LevelDef)
    ensures
        def.name@ == "THE HANGED MAN"@,
        def.subtitle@ == "XII - El mundo de cabeza"@,
        def.arcanum == HANGED_MAN,
        def.grid@ == hanged_man_grid(),
        def.seed == 77,
{
    let grid: Vec<&'static str> = vec![
        "11111111111111111111",
        "1P........S.......C1",
        "1.2222222.22222222.1",
        "1.2..............2.1",
        "1.2.333333.33333.2.1",
        "1.2.3..........3.2.1",
        "1.2.3.44444444.3.2.1",
        "1...3.4..X...4.3...1",
        "1.2.3.4444.444.3.2.1",
        "1.2.3..C.......3.2.1",
        "1.2.3333.333333S.2.1",
        "1.2..5........5..2.1",
        "1.2222222.2222222S.1",
        "1..C.....S.........1",
        "11111111111111111111",
    ];
    LevelDef {
        name: "THE HANGED MAN",
        subtitle: "XII - El mundo de cabeza",
        arcanum: HANGED_MAN,
        grid,
        seed: 77,
    }
}

/// The map of arcanum IX, The Hermit: dim crypts linked by narrow passages.
pub open spec fn hermit_grid() -> Seq<&'static str> {
    seq![
        "11111111111111111111",
        "1P..1.....5....1..C1",
        "1...1.555.5.55.1...1",
        "1...4.5...5..5.4...1",
        "11.41.5.S.5.C5.14.11",
        "1...........5......1",
        "1.2222.33333.2222..1",
        "1.5..S.5.......5...1",
        "1.5....5.X.....5.S.1",
        "1.33.333333.3333...1",
        "1........S.........1",
        "111.4444..4444.11111",
        "1...4..C...4.......1",
        "1S..4......4.......1",
        "11111111111111111111",
    ]
}

/// Arcanum IX, The Hermit: only the lantern lights the way.
pub fn level_hermit() -> (def: LevelDef)
    ensures
        def.name@ == "THE HERMIT"@,
        def.subtitle@ == "IX - La luz del farol"@,
        def.arcanum == 9,
        def.grid@ == hermit_grid(),
        def.seed == 13,
{
    let grid: Vec<&'static str> = vec![
        "11111111111111111111",
        "1P..1.....5....1..C1",
        "1...1.555.5.55.1...1",
        "1...4.5...5..5.4...1",
        "11.41.5.S.5.C5.14.11",
        "1...........5......1",
        "1.2222.33333.2222..1",
        "1.5..S.5.......5...1",
        "1.5....5.X.....5.S.1",
        "1.33.333333.3333...1",
        "1........S.........1",
        "111.4444..4444.11111",
        "1...4..C...4.......1",
        "1S..4......4.......1",
        "11111111111111111111",
    ];
    LevelDef { name: "THE HERMIT", subtitle: "IX - La luz del farol", arcanum: 9, grid, seed: 13 }
}

/// The three playable arcana in menu order: 0 The Fool, XII The Hanged
/// Man, IX The Hermit.
pub fn all_levels() -> (defs: Vec<LevelDef>)
    ensures
        defs@.len() == 3,
        defs@[0].name@ == "THE FOOL"@,
        defs@[0].subtitle@ == "0 - El comienzo del viaje"@,
        defs@[0].arcanum == 0,
        defs@[0].grid@ == fool_grid(),
        defs@[0].seed == 11,
        defs@[1].name@ == "THE HANGED MAN"@,
        defs@[1].subtitle@ == "XII - El mundo de cabeza"@,
        defs@[1].arcanum == HANGED_MAN,
        defs@[1].grid@ == hanged_man_grid(),
        defs@[1].seed == 77,
        defs@[2].name@ == "THE HERMIT"@,
        defs@[2].subtitle@ == "IX - La luz del farol"@,
        defs@[2].arcanum == 9,
        defs@[2].grid@ == hermit_grid(),
        defs@[2].seed == 13,
{
    let mut defs: Vec<LevelDef> = Vec::new();
    defs.push(level_fool());
    defs.push(level_hanged_man());
    defs.push(level_hermit());
    defs
}

} // verus!
