//! The toroidal grid of cells and the pattern templates stamped onto it.
use vstd::prelude::*;
use vstd::arithmetic::div_mod::{
    lemma_add_mod_noop, lemma_mod_add_multiples_vanish, lemma_mod_bound, lemma_mod_twice,
    lemma_small_mod,
};

verus! {

/// A toroidal field of boolean cells, `width` columns by `height` rows.
///
/// Cells are indexed by `(x, y)` with `x` the column and `y` the row;
/// coordinates wrap around both edges. The dimensions never change after
/// construction.
pub struct Grid {
    pub width: usize,
    pub height: usize,
    pub cells: Vec<Vec<bool>>,
}

impl Grid {
    /// Well-formedness: both dimensions positive, and the cell storage is a
    /// `height`-by-`width` rectangle.
    pub open spec fn wf(&self) -> bool {
        &&& 0 < self.width
        &&& 0 < self.height
        &&& self.cells@.len() == self.height
        &&& forall|y: int|
            0 <= y < self.height ==> (#[trigger] self.cells@[y])@.len() == self.width
    }

    /// State of the cell in column `x`, row `y`: true means alive.
    pub open spec fn cell(&self, x: int, y: int) -> bool {
        self.cells@[y]@[x]
    }

    /// Every in-range cell is dead.
    pub open spec fn all_dead(&self) -> bool {
        forall|x: int, y: int|
            0 <= x < self.width && 0 <= y < self.height ==> !(#[trigger] self.cell(x, y))
    }

    /// Reads one cell.
    pub fn get(&self, x: usize, y: usize) -> (alive: bool)
        requires
            self.wf(),
            x < self.width,
            y < self.height,
        ensures
            alive == self.cell(x as int, y as int),
    {
        self.cells[y][x]
    }
}

/// Wraps `base + delta` into `[0, modulus)`; the added `modulus` keeps the sum
/// nonnegative, so the same formula serves offsets as small as `-modulus`.
pub open spec fn wrap_add(base: int, delta: int, modulus: int) -> int {
    (base + delta + modulus) % modulus
}

/// Wrapped sum `(a + d) % m`, computed without intermediate overflow.
pub fn wrap_index(a: usize, d: usize, m: usize) -> (r: usize)
    requires
        0 < m,
    ensures
        r < m,
        r as int == wrap_add(a as int, d as int, m as int),
{
    let am: usize = a % m;
    let dm: usize = d % m;
    let r: usize = if am >= m - dm {
        am - (m - dm)
    } else {
        am + dm
    };
    proof {
        let ai = a as int;
        let di = d as int;
        let mi = m as int;
        // (a % m + d % m) % m == (a + d) % m
        lemma_add_mod_noop(ai, di, mi);
        // the branchy sum equals (a % m + d % m) % m
        let s = (ai % mi) + (di % mi);
        if s < mi {
            lemma_small_mod(s as nat, m as nat);
        } else {
            lemma_mod_add_multiples_vanish(s - mi, mi);
            lemma_small_mod((s - mi) as nat, m as nat);
        }
        // (a + d) % m == (a + d + m) % m
        lemma_mod_add_multiples_vanish(ai + di, mi);
        lemma_mod_bound(ai + di + mi, mi);
    }
    r
}

/// Allocates a `width`-by-`height` grid with every cell dead.
pub fn create_grid(width: usize, height: usize) -> (g: Grid)
    requires
        0 < width,
        0 < height,
    ensures
        g.wf(),
        g.width == width,
        g.height == height,
        g.all_dead(),
{
    let mut cells: Vec<Vec<bool>> = Vec::new();
    let mut y: usize = 0;
    while y < height
        invariant
            y <= height,
            cells@.len() == y,
            forall|j: int| 0 <= j < y ==> (#[trigger] cells@[j])@.len() == width,
            forall|j: int, i: int|
                0 <= j < y && 0 <= i < width ==> !(#[trigger] cells@[j]@[i]),
        decreases height - y,
    {
        let mut row: Vec<bool> = Vec::new();
        let mut x: usize = 0;
        while x < width
            invariant
                x <= width,
                row@.len() == x,
                forall|i: int| 0 <= i < x ==> !(#[trigger] row@[i]),
            decreases width - x,
        {
            row.push(false);
            x += 1;
        }
        cells.push(row);
        y += 1;
    }
    Grid { width, height, cells }
}

/// Row-major order on cell coordinates: `a` lies strictly before `b` when it
/// sits on an earlier row, or on the same row further left.
pub open spec fn row_major_lt(a: (usize, usize), b: (usize, usize)) -> bool {
    a.1 < b.1 || (a.1 == b.1 && a.0 < b.0)
}

impl Grid {
    /// Lists the coordinates of every live cell, in strictly increasing
    /// row-major order, so each live cell appears exactly once.
    pub fn live_cells(&self) -> (r: Vec<(usize, usize)>)
        requires
            self.wf(),
        ensures
            forall|k: int|
                0 <= k < r@.len() ==> (#[trigger] r@[k]).0 < self.width && r@[k].1 < self.height
                    && self.cell(r@[k].0 as int, r@[k].1 as int),
            forall|x: int, y: int|
                0 <= x < self.width && 0 <= y < self.height && self.cell(x, y) ==> r@.contains(
                    (x as usize, y as usize),
                ),
            forall|k1: int, k2: int|
                #![trigger r@[k1], r@[k2]]
                0 <= k1 < k2 < r@.len() ==> row_major_lt(r@[k1], r@[k2]),
    {
        let mut r: Vec<(usize, usize)> = Vec::new();
        let mut y: usize = 0;
        while y < self.height
            invariant
                self.wf(),
                y <= self.height,
                forall|k: int|
                    0 <= k < r@.len() ==> (#[trigger] r@[k]).0 < self.width && r@[k].1 < y
                        && self.cell(r@[k].0 as int, r@[k].1 as int),
                forall|i: int, j: int|
                    0 <= i < self.width && 0 <= j < y && self.cell(i, j) ==> r@.contains(
                        (i as usize, j as usize),
                    ),
                forall|k1: int, k2: int|
                    #![trigger r@[k1], r@[k2]]
                    0 <= k1 < k2 < r@.len() ==> row_major_lt(r@[k1], r@[k2]),
            decreases self.height - y,
        {
            let mut x: usize = 0;
            while x < self.width
                invariant
                    self.wf(),
                    y < self.height,
                    x <= self.width,
                    forall|k: int|
                        0 <= k < r@.len() ==> (#[trigger] r@[k]).0 < self.width && ((r@[k].1 < y)
                            || (r@[k].1 == y && r@[k].0 < x)) && self.cell(
                            r@[k].0 as int,
                            r@[k].1 as int,
                        ),
                    forall|i: int, j: int|
                        0 <= i < self.width && 0 <= j < self.height && ((j < y) || (j == y && i
                            < x)) && self.cell(i, j) ==> r@.contains((i as usize, j as usize)),
                    forall|k1: int, k2: int|
                        #![trigger r@[k1], r@[k2]]
                        0 <= k1 < k2 < r@.len() ==> row_major_lt(r@[k1], r@[k2]),
                decreases self.width - x,
            {
                if self.get(x, y) {
                    let ghost before = r@;
                    r.push((x, y));
                    proof {
                        assert forall|i: int, j: int|
                            0 <= i < self.width && 0 <= j < self.height && ((j < y as int) || (j
                                == y as int && i < x as int + 1)) && self.cell(i, j) implies r@
                            .contains((i as usize, j as usize)) by {
                            if j == y as int && i == x as int {
                                assert(r@[r@.len() - 1] == (x, y));
                            } else {
                                let idx = choose|idx: int|
                                    0 <= idx < before.len() && before[idx] == (
                                    i as usize,
                                    j as usize,
                                    );
                                assert(r@[idx] == (i as usize, j as usize));
                            }
                        }
                    }
                }
                x += 1;
            }
            y += 1;
        }
        r
    }
}

/// A fixed template of `(dx, dy)` cell offsets, stamped onto a grid relative
/// to an anchor coordinate.
pub struct Pattern {
    pub offsets: Vec<(usize, usize)>,
}

/// Offsets of the 5-cell glider, a period-4 translating oscillator.
pub open spec fn glider_offsets() -> Seq<(usize, usize)> {
    seq![(1usize, 0usize), (2, 1), (0, 2), (1, 2), (2, 2)]
}

/// Offsets of the 3-cell horizontal blinker, a period-2 oscillator.
pub open spec fn blinker_offsets() -> Seq<(usize, usize)> {
    seq![(0usize, 1usize), (1, 1), (2, 1)]
}

/// Offsets of the 48-cell pulsar, a period-3 oscillator.
pub open spec fn pulsar_offsets() -> Seq<(usize, usize)> {
    seq![
        (2usize, 0usize), (3, 0), (4, 0), (8, 0), (9, 0), (10, 0),
        (0, 2), (5, 2), (7, 2), (12, 2),
        (0, 3), (5, 3), (7, 3), (12, 3),
        (0, 4), (5, 4), (7, 4), (12, 4),
        (2, 5), (3, 5), (4, 5), (8, 5), (9, 5), (10, 5),
        (2, 7), (3, 7), (4, 7), (8, 7), (9, 7), (10, 7),
        (0, 8), (5, 8), (7, 8), (12, 8),
        (0, 9), (5, 9), (7, 9), (12, 9),
        (0, 10), (5, 10), (7, 10), (12, 10),
        (2, 12), (3, 12), (4, 12), (8, 12), (9, 12), (10, 12),
    ]
}

/// Offsets of the decorative dinosaur figure; no oscillation is promised.
/// One offset of the source figure, the eye at `(7, 1)`, repeats a cell of
/// the head row and is kept as given.
pub open spec fn dinosaur_offsets() -> Seq<(usize, usize)> {
    seq![
        (6usize, 0usize), (7, 0), (8, 0),
        (5, 1), (6, 1), (7, 1), (8, 1),
        (7, 1),
        (4, 2), (5, 2), (6, 2), (7, 2), (8, 2), (9, 2),
        (3, 3), (4, 3), (5, 3), (6, 3), (7, 3), (8, 3), (9, 3),
        (6, 4), (6, 5),
        (2, 4), (3, 4), (4, 4), (5, 4),
        (1, 5), (2, 5), (3, 5), (4, 5),
        (0, 6), (1, 6), (2, 6), (3, 6),
        (0, 7), (1, 7), (2, 7),
        (6, 6), (7, 6),
    ]
}

/// True when some offset of `offs`, anchored at `(ax, ay)`, lands on `(x, y)`
/// after wrapping modulo `w` and `h`.
pub open spec fn covers(
    offs: Seq<(usize, usize)>,
    ax: int,
    ay: int,
    w: int,
    h: int,
    x: int,
    y: int,
) -> bool {
    exists|k: int|
        0 <= k < offs.len() && wrap_add(ax, (#[trigger] offs[k]).0 as int, w) == x && wrap_add(
            ay,
            offs[k].1 as int,
            h,
        ) == y
}

/// Relates a grid before and after one stamp: dimensions are kept, and a cell
/// is alive afterwards exactly when it was alive before or the pattern covers
/// it from the anchor.
pub open spec fn stamp_rel(g0: Grid, g1: Grid, offs: Seq<(usize, usize)>, ax: int, ay: int) -> bool {
    &&& g1.width == g0.width
    &&& g1.height == g0.height
    &&& forall|x: int, y: int|
        0 <= x < g0.width && 0 <= y < g0.height ==> #[trigger] g1.cell(x, y) == (g0.cell(x, y)
            || covers(offs, ax, ay, g0.width as int, g0.height as int, x, y))
}

/// Extending the stamped prefix by one offset extends its cover by exactly
/// the cell that offset lands on.
proof fn lemma_covers_step(
    offs: Seq<(usize, usize)>,
    k: int,
    ax: int,
    ay: int,
    w: int,
    h: int,
    x: int,
    y: int,
)
    requires
        0 <= k < offs.len(),
    ensures
        covers(offs.take(k + 1), ax, ay, w, h, x, y) <==> (covers(offs.take(k), ax, ay, w, h, x, y)
            || (wrap_add(ax, offs[k].0 as int, w) == x && wrap_add(ay, offs[k].1 as int, h) == y)),
{
    let t0 = offs.take(k);
    let t1 = offs.take(k + 1);
    if covers(t1, ax, ay, w, h, x, y) {
        let i = choose|i: int|
            0 <= i < t1.len() && wrap_add(ax, (#[trigger] t1[i]).0 as int, w) == x && wrap_add(
                ay,
                t1[i].1 as int,
                h,
            ) == y;
        if i < k {
            assert(t0[i] == t1[i]);
            assert(covers(t0, ax, ay, w, h, x, y));
        } else {
            assert(t1[i] == offs[k]);
        }
    }
    if covers(t0, ax, ay, w, h, x, y) {
        let i = choose|i: int|
            0 <= i < t0.len() && wrap_add(ax, (#[trigger] t0[i]).0 as int, w) == x && wrap_add(
                ay,
                t0[i].1 as int,
                h,
            ) == y;
        assert(t1[i] == t0[i]);
        assert(covers(t1, ax, ay, w, h, x, y));
    }
    if wrap_add(ax, offs[k].0 as int, w) == x && wrap_add(ay, offs[k].1 as int, h) == y {
        assert(t1[k] == offs[k]);
        assert(covers(t1, ax, ay, w, h, x, y));
    }
}

/// Stamps `pattern` onto `grid`: every offset `(dx, dy)`, anchored at
/// `(ax, ay)`, sets the cell at `((ax + dx) mod width, (ay + dy) mod height)`
/// alive. All other cells keep their state; anchors and offsets beyond the
/// grid bounds wrap rather than fail.
pub fn stamp_pattern(grid: &mut Grid, pattern: &Pattern, ax: usize, ay: usize)
    requires
        old(grid).wf(),
    ensures
        final(grid).wf(),
        stamp_rel(*old(grid), *final(grid), pattern.offsets@, ax as int, ay as int),
{
    let ghost offs = pattern.offsets@;
    let ghost axi = ax as int;
    let ghost ayi = ay as int;
    let ghost wi = old(grid).width as int;
    let ghost hi = old(grid).height as int;
    let mut k: usize = 0;
    while k < pattern.offsets.len()
        invariant
            grid.wf(),
            grid.width == old(grid).width,
            grid.height == old(grid).height,
            k <= offs.len(),
            pattern.offsets@ == offs,
            axi == ax as int,
            ayi == ay as int,
            wi == old(grid).width as int,
            hi == old(grid).height as int,
            forall|x: int, y: int|
                0 <= x < wi && 0 <= y < hi ==> #[trigger] grid.cell(x, y) == (old(grid).cell(x, y)
                    || covers(offs.take(k as int), axi, ayi, wi, hi, x, y)),
        decreases offs.len() - k,
    {
        let (dx, dy) = pattern.offsets[k];
        let px = wrap_index(ax, dx, grid.width);
        let py = wrap_index(ay, dy, grid.height);
        let ghost before = *grid;
        grid.cells[py][px] = true;
        proof {
            assert forall|x: int, y: int| 0 <= x < wi && 0 <= y < hi implies #[trigger] grid.cell(
                x,
                y,
            ) == (old(grid).cell(x, y) || covers(
                offs.take(k as int + 1),
                axi,
                ayi,
                wi,
                hi,
                x,
                y,
            )) by {
                lemma_covers_step(offs, k as int, axi, ayi, wi, hi, x, y);
                if x == px as int && y == py as int {
                    assert(grid.cell(x, y));
                } else {
                    assert(grid.cell(x, y) == before.cell(x, y));
                }
            }
        }
        k += 1;
    }
    proof {
        assert(offs.take(offs.len() as int) =~= offs);
    }
}

impl Pattern {
    /// Builds the glider template.
    pub fn glider() -> (p: Pattern)
        ensures
            p.offsets@ == glider_offsets(),
    {
        let mut offsets: Vec<(usize, usize)> = Vec::new();
        offsets.push((1, 0));
        offsets.push((2, 1));
        offsets.push((0, 2));
        offsets.push((1, 2));
        offsets.push((2, 2));
        proof {
            assert(offsets@ =~= glider_offsets());
        }
        Pattern { offsets }
    }

    /// Builds the blinker template.
    pub fn blinker() -> (p: Pattern)
        ensures
            p.offsets@ == blinker_offsets(),
    {
        let mut offsets: Vec<(usize, usize)> = Vec::new();
        offsets.push((0, 1));
        offsets.push((1, 1));
        offsets.push((2, 1));
        proof {
            assert(offsets@ =~= blinker_offsets());
        }
        Pattern { offsets }
    }

    /// Builds the pulsar template.
    #[verifier::rlimit(30)]
    pub fn pulsar() -> (p: Pattern)
        ensures
            p.offsets@ == pulsar_offsets(),
    {
        let mut offsets: Vec<(usize, usize)> = Vec::new();
        offsets.push((2, 0));
        offsets.push((3, 0));
        offsets.push((4, 0));
        offsets.push((8, 0));
        offsets.push((9, 0));
        offsets.push((10, 0));
        offsets.push((0, 2));
        offsets.push((5, 2));
        offsets.push((7, 2));
        offsets.push((12, 2));
        offsets.push((0, 3));
        offsets.push((5, 3));
        offsets.push((7, 3));
        offsets.push((12, 3));
        offsets.push((0, 4));
        offsets.push((5, 4));
        offsets.push((7, 4));
        offsets.push((12, 4));
        offsets.push((2, 5));
        offsets.push((3, 5));
        offsets.push((4, 5));
        offsets.push((8, 5));
        offsets.push((9, 5));
        offsets.push((10, 5));
        offsets.push((2, 7));
        offsets.push((3, 7));
        offsets.push((4, 7));
        offsets.push((8, 7));
        offsets.push((9, 7));
        offsets.push((10, 7));
        offsets.push((0, 8));
        offsets.push((5, 8));
        offsets.push((7, 8));
        offsets.push((12, 8));
        offsets.push((0, 9));
        offsets.push((5, 9));
        offsets.push((7, 9));
        offsets.push((12, 9));
        offsets.push((0, 10));
        offsets.push((5, 10));
        offsets.push((7, 10));
        offsets.push((12, 10));
        offsets.push((2, 12));
        offsets.push((3, 12));
        offsets.push((4, 12));
        offsets.push((8, 12));
        offsets.push((9, 12));
        offsets.push((10, 12));
        proof {
            assert(offsets@ =~= pulsar_offsets());
        }
        Pattern { offsets }
    }

    /// Builds the dinosaur template.
    #[verifier::rlimit(30)]
    pub fn dinosaur() -> (p: Pattern)
        ensures
            p.offsets@ == dinosaur_offsets(),
    {
        let mut offsets: Vec<(usize, usize)> = Vec::new();
        offsets.push((6, 0));
        offsets.push((7, 0));
        offsets.push((8, 0));
        offsets.push((5, 1));
        offsets.push((6, 1));
        offsets.push((7, 1));
        offsets.push((8, 1));
        offsets.push((7, 1));
        offsets.push((4, 2));
        offsets.push((5, 2));
        offsets.push((6, 2));
        offsets.push((7, 2));
        offsets.push((8, 2));
        offsets.push((9, 2));
        offsets.push((3, 3));
        offsets.push((4, 3));
        offsets.push((5, 3));
        offsets.push((6, 3));
        offsets.push((7, 3));
        offsets.push((8, 3));
        offsets.push((9, 3));
        offsets.push((6, 4));
        offsets.push((6, 5));
        offsets.push((2, 4));
        offsets.push((3, 4));
        offsets.push((4, 4));
        offsets.push((5, 4));
        offsets.push((1, 5));
        offsets.push((2, 5));
        offsets.push((3, 5));
        offsets.push((4, 5));
        offsets.push((0, 6));
        offsets.push((1, 6));
        offsets.push((2, 6));
        offsets.push((3, 6));
        offsets.push((0, 7));
        offsets.push((1, 7));
        offsets.push((2, 7));
        offsets.push((6, 6));
        offsets.push((7, 6));
        proof {
            assert(offsets@ =~= dinosaur_offsets());
        }
        Pattern { offsets }
    }
}

/// `(a % m + b) % m == (a + b) % m`.
pub(crate) proof fn lemma_mod_add_left(a: int, b: int, m: int)
    requires
        m > 0,
    ensures
        (a % m + b) % m == (a + b) % m,
{
    lemma_mod_twice(a, m);
    lemma_add_mod_noop(a % m, b, m);
    lemma_add_mod_noop(a, b, m);
}

/// Reducing the anchor modulo the grid size does not change where an offset
/// lands.
proof fn lemma_wrap_anchor(a: int, d: int, m: int)
    requires
        m > 0,
    ensures
        wrap_add(a % m, d, m) == wrap_add(a, d, m),
{
    lemma_mod_add_left(a, d + m, m);
}

/// A pattern anchored at `(ax, ay)` covers the same cells as the pattern
/// anchored at the anchor reduced modulo the grid dimensions.
proof fn lemma_covers_anchor_mod(
    offs: Seq<(usize, usize)>,
    ax: int,
    ay: int,
    w: int,
    h: int,
    x: int,
    y: int,
)
    requires
        w > 0,
        h > 0,
    ensures
        covers(offs, ax, ay, w, h, x, y) <==> covers(offs, ax % w, ay % h, w, h, x, y),
{
    if covers(offs, ax, ay, w, h, x, y) {
        let k = choose|k: int|
            0 <= k < offs.len() && wrap_add(ax, (#[trigger] offs[k]).0 as int, w) == x && wrap_add(
                ay,
                offs[k].1 as int,
                h,
            ) == y;
        lemma_wrap_anchor(ax, offs[k].0 as int, w);
        lemma_wrap_anchor(ay, offs[k].1 as int, h);
        assert(covers(offs, ax % w, ay % h, w, h, x, y));
    }
    if covers(offs, ax % w, ay % h, w, h, x, y) {
        let k = choose|k: int|
            0 <= k < offs.len() && wrap_add(ax % w, (#[trigger] offs[k]).0 as int, w) == x
                && wrap_add(ay % h, offs[k].1 as int, h) == y;
        lemma_wrap_anchor(ax, offs[k].0 as int, w);
        lemma_wrap_anchor(ay, offs[k].1 as int, h);
        assert(covers(offs, ax, ay, w, h, x, y));
    }
}

/// Stamping a pattern twice at the same anchor leaves the same live-cell set
/// as stamping it once: the second stamp changes nothing.
pub proof fn lemma_stamp_idempotent(
    g0: Grid,
    g1: Grid,
    g2: Grid,
    offs: Seq<(usize, usize)>,
    ax: int,
    ay: int,
)
    requires
        stamp_rel(g0, g1, offs, ax, ay),
        stamp_rel(g1, g2, offs, ax, ay),
    ensures
        forall|x: int, y: int|
            0 <= x < g0.width && 0 <= y < g0.height ==> #[trigger] g2.cell(x, y) == g1.cell(x, y),
{
}

/// Stamping at an anchor beyond the grid bounds leaves the same live-cell set
/// as stamping at the equivalent anchor reduced modulo the grid dimensions.
pub proof fn lemma_stamp_anchor_wraps(
    g0: Grid,
    g1: Grid,
    g2: Grid,
    offs: Seq<(usize, usize)>,
    ax: int,
    ay: int,
)
    requires
        g0.wf(),
        stamp_rel(g0, g1, offs, ax, ay),
        stamp_rel(g0, g2, offs, ax % (g0.width as int), ay % (g0.height as int)),
    ensures
        forall|x: int, y: int|
            0 <= x < g0.width && 0 <= y < g0.height ==> #[trigger] g1.cell(x, y) == g2.cell(x, y),
{
    assert forall|x: int, y: int|
        0 <= x < g0.width && 0 <= y < g0.height implies #[trigger] g1.cell(x, y) == g2.cell(
        x,
        y,
    ) by {
        lemma_covers_anchor_mod(
            offs,
            ax,
            ay,
            g0.width as int,
            g0.height as int,
            x,
            y,
        );
    }
}

/// Stamps a glider whose local origin sits at `(ox, oy)`.
pub fn spawn_glider(grid: &mut Grid, ox: usize, oy: usize)
    requires
        old(grid).wf(),
    ensures
        final(grid).wf(),
        stamp_rel(*old(grid), *final(grid), glider_offsets(), ox as int, oy as int),
{
    let p = Pattern::glider();
    stamp_pattern(grid, &p, ox, oy);
}

/// Stamps a blinker whose local origin sits at `(ox, oy)`.
pub fn spawn_blinker(grid: &mut Grid, ox: usize, oy: usize)
    requires
        old(grid).wf(),
    ensures
        final(grid).wf(),
        stamp_rel(*old(grid), *final(grid), blinker_offsets(), ox as int, oy as int),
{
    let p = Pattern::blinker();
    stamp_pattern(grid, &p, ox, oy);
}

/// Stamps a pulsar whose local origin sits at `(ox, oy)`.
pub fn spawn_pulsar(grid: &mut Grid, ox: usize, oy: usize)
    requires
        old(grid).wf(),
    ensures
        final(grid).wf(),
        stamp_rel(*old(grid), *final(grid), pulsar_offsets(), ox as int, oy as int),
{
    let p = Pattern::pulsar();
    stamp_pattern(grid, &p, ox, oy);
}

/// Stamps the dinosaur figure whose local origin sits at `(ox, oy)`.
pub fn spawn_dinosaur(grid: &mut Grid, ox: usize, oy: usize)
    requires
        old(grid).wf(),
    ensures
        final(grid).wf(),
        stamp_rel(*old(grid), *final(grid), dinosaur_offsets(), ox as int, oy as int),
{
    let p = Pattern::dinosaur();
    stamp_pattern(grid, &p, ox, oy);
}

} // verus!
