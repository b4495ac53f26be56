//! Neighbor counting and the generation-update rule.
use vstd::prelude::*;
use vstd::arithmetic::div_mod::{
    lemma_mod_add_multiples_vanish, lemma_mod_bound, lemma_mod_self_0, lemma_small_mod,
};
use crate::grid::{lemma_mod_add_left, wrap_add, Grid};

verus! {

/// Counts a cell state as 1 when alive, 0 when dead.
pub open spec fn alive_weight(alive: bool) -> int {
    if alive {
        1
    } else {
        0
    }
}

/// Number of live cells among the 8 toroidally-wrapped neighbors of `(x, y)`.
pub open spec fn neighbor_count(g: Grid, x: int, y: int) -> int {
    let w = g.width as int;
    let h = g.height as int;
    alive_weight(g.cell(wrap_add(x, -1, w), wrap_add(y, -1, h)))
        + alive_weight(g.cell(wrap_add(x, 0, w), wrap_add(y, -1, h)))
        + alive_weight(g.cell(wrap_add(x, 1, w), wrap_add(y, -1, h)))
        + alive_weight(g.cell(wrap_add(x, -1, w), wrap_add(y, 0, h)))
        + alive_weight(g.cell(wrap_add(x, 1, w), wrap_add(y, 0, h)))
        + alive_weight(g.cell(wrap_add(x, -1, w), wrap_add(y, 1, h)))
        + alive_weight(g.cell(wrap_add(x, 0, w), wrap_add(y, 1, h)))
        + alive_weight(g.cell(wrap_add(x, 1, w), wrap_add(y, 1, h)))
}

/// The Game of Life rule: a cell is alive in the next generation exactly when
/// it has 3 live neighbors, or it is alive now and has 2 live neighbors.
pub open spec fn next_cell(alive: bool, n: int) -> bool {
    n == 3 || (alive && n == 2)
}

/// Wraps `c + (d_plus - 1)` into `[0, m)`, for a neighbor offset
/// `d_plus - 1` in `{-1, 0, 1}`.
fn wrap_nbr(c: usize, d_plus: usize, m: usize) -> (r: usize)
    requires
        0 < m,
        c < m,
        d_plus <= 2,
    ensures
        r < m,
        r as int == wrap_add(c as int, d_plus as int - 1, m as int),
{
    let r: usize = if d_plus == 0 {
        if c == 0 {
            m - 1
        } else {
            c - 1
        }
    } else {
        let t: usize = c + (d_plus - 1);
        if t >= m {
            t - m
        } else {
            t
        }
    };
    proof {
        let ci = c as int;
        let mi = m as int;
        let di = d_plus as int - 1;
        if ci + di + mi < mi {
            // only possible for c == 0, d == -1, where the sum is m - 1
            assert(ci + di + mi == mi - 1);
            lemma_small_mod((mi - 1) as nat, m as nat);
        } else if ci + di + mi < 2 * mi {
            lemma_mod_add_multiples_vanish(ci + di, mi);
            lemma_small_mod((ci + di) as nat, m as nat);
        } else {
            // only possible for c == m - 1, d == 1, where the sum is 2m
            assert(ci + di + mi == 2 * mi);
            lemma_mod_add_multiples_vanish(mi, mi);
            lemma_mod_self_0(mi);
        }
    }
    r
}

impl Grid {
    /// Counts the live cells among the 8 wrapped neighbors of `(x, y)`.
    /// The count never leaves `[0, 8]`.
    pub fn count_live_neighbors(&self, x: usize, y: usize) -> (n: u8)
        requires
            self.wf(),
            x < self.width,
            y < self.height,
        ensures
            n as int == neighbor_count(*self, x as int, y as int),
            n <= 8,
    {
        let x0 = wrap_nbr(x, 0, self.width);
        let x1 = wrap_nbr(x, 1, self.width);
        let x2 = wrap_nbr(x, 2, self.width);
        let y0 = wrap_nbr(y, 0, self.height);
        let y1 = wrap_nbr(y, 1, self.height);
        let y2 = wrap_nbr(y, 2, self.height);
        let mut n: u8 = 0;
        if self.get(x0, y0) {
            n += 1;
        }
        if self.get(x1, y0) {
            n += 1;
        }
        if self.get(x2, y0) {
            n += 1;
        }
        if self.get(x0, y1) {
            n += 1;
        }
        if self.get(x2, y1) {
            n += 1;
        }
        if self.get(x0, y2) {
            n += 1;
        }
        if self.get(x1, y2) {
            n += 1;
        }
        if self.get(x2, y2) {
            n += 1;
        }
        n
    }
}

/// Applies the update rule to one cell: survival on 2 or 3 live neighbors,
/// birth on exactly 3, death otherwise.
pub fn next_state(alive: bool, n: u8) -> (r: bool)
    ensures
        r == next_cell(alive, n as int),
        alive && (n == 2 || n == 3) ==> r,
        alive && n != 2 && n != 3 ==> !r,
        !alive && n == 3 ==> r,
        !alive && n != 3 ==> !r,
{
    match (alive, n) {
        (true, 2) | (true, 3) => true,
        (false, 3) => true,
        _ => false,
    }
}

/// Relates one generation to the next: same dimensions, and every cell of
/// `nxt` is the rule applied to the matching cell of `cur` and its neighbor
/// count in `cur`.
pub open spec fn step_rel(cur: Grid, nxt: Grid) -> bool {
    &&& nxt.width == cur.width
    &&& nxt.height == cur.height
    &&& forall|x: int, y: int|
        0 <= x < cur.width && 0 <= y < cur.height ==> #[trigger] nxt.cell(x, y) == next_cell(
            cur.cell(x, y),
            neighbor_count(cur, x, y),
        )
}

/// Computes the next generation of `current` into `next`.
///
/// Reads only from `current` and writes only into `next`, so every neighbor
/// count reflects the single snapshot held in `current`.
pub fn compute_next_generation(current: &Grid, next: &mut Grid)
    requires
        current.wf(),
        old(next).width == current.width,
        old(next).height == current.height,
    ensures
        final(next).wf(),
        step_rel(*current, *final(next)),
{
    let mut rows: Vec<Vec<bool>> = Vec::new();
    let mut y: usize = 0;
    while y < current.height
        invariant
            current.wf(),
            y <= current.height,
            rows@.len() == y,
            forall|j: int|
                0 <= j < y ==> (#[trigger] rows@[j])@.len() == current.width,
            forall|j: int, i: int|
                0 <= j < y && 0 <= i < current.width ==> #[trigger] rows@[j]@[i] == next_cell(
                    current.cell(i, j),
                    neighbor_count(*current, i, j),
                ),
        decreases current.height - y,
    {
        let mut row: Vec<bool> = Vec::new();
        let mut x: usize = 0;
        while x < current.width
            invariant
                current.wf(),
                y < current.height,
                x <= current.width,
                row@.len() == x,
                forall|i: int|
                    0 <= i < x ==> #[trigger] row@[i] == next_cell(
                        current.cell(i, y as int),
                        neighbor_count(*current, i, y as int),
                    ),
            decreases current.width - x,
        {
            let alive = current.get(x, y);
            let n = current.count_live_neighbors(x, y);
            row.push(next_state(alive, n));
            x += 1;
        }
        rows.push(row);
        y += 1;
    }
    next.cells = rows;
}

/// Wrapped addition is insensitive to the order of two displacements:
/// stepping by `d` and then shifting by `s` lands where shifting first and
/// stepping after does.
proof fn lemma_wrap_add_commutes(c: int, d: int, s: int, m: int)
    requires
        m > 0,
    ensures
        wrap_add(wrap_add(c, d, m), s, m) == wrap_add(wrap_add(c, s, m), d, m),
{
    lemma_mod_add_left(c + d + m, s + m, m);
    lemma_mod_add_left(c + s + m, d + m, m);
}

/// True when `gs` holds the contents of `g` shifted by `(sx, sy)` with wrap:
/// the cell of `gs` at `(i, j)` equals the cell of `g` at the wrapped
/// coordinate `(i + sx, j + sy)`.
pub open spec fn shifted_by(g: Grid, gs: Grid, sx: int, sy: int) -> bool {
    &&& gs.width == g.width
    &&& gs.height == g.height
    &&& forall|i: int, j: int|
        0 <= i < g.width && 0 <= j < g.height ==> #[trigger] gs.cell(i, j) == g.cell(
            wrap_add(i, sx, g.width as int),
            wrap_add(j, sy, g.height as int),
        )
}

/// Toroidal symmetry of neighbor counting: on a grid whose contents are
/// shifted by `(sx, sy)`, the count at any coordinate equals the count on the
/// original grid at the correspondingly shifted coordinate.
pub proof fn lemma_neighbor_count_shift(g: Grid, gs: Grid, sx: int, sy: int, x: int, y: int)
    requires
        0 < g.width,
        0 < g.height,
        shifted_by(g, gs, sx, sy),
    ensures
        neighbor_count(gs, x, y) == neighbor_count(
            g,
            wrap_add(x, sx, g.width as int),
            wrap_add(y, sy, g.height as int),
        ),
{
    let w = g.width as int;
    let h = g.height as int;
    lemma_wrap_add_commutes(x, -1, sx, w);
    lemma_wrap_add_commutes(x, 0, sx, w);
    lemma_wrap_add_commutes(x, 1, sx, w);
    lemma_wrap_add_commutes(y, -1, sy, h);
    lemma_wrap_add_commutes(y, 0, sy, h);
    lemma_wrap_add_commutes(y, 1, sy, h);
    lemma_mod_bound(x - 1 + w, w);
    lemma_mod_bound(x + w, w);
    lemma_mod_bound(x + 1 + w, w);
    lemma_mod_bound(y - 1 + h, h);
    lemma_mod_bound(y + h, h);
    lemma_mod_bound(y + 1 + h, h);
}

/// Two grids that agree on a cell and on its 8 wrapped neighbors.
pub open spec fn agrees_on_neighborhood(g1: Grid, g2: Grid, x: int, y: int) -> bool {
    let w = g1.width as int;
    let h = g1.height as int;
    &&& g1.cell(x, y) == g2.cell(x, y)
    &&& g1.cell(wrap_add(x, -1, w), wrap_add(y, -1, h)) == g2.cell(
        wrap_add(x, -1, w),
        wrap_add(y, -1, h),
    )
    &&& g1.cell(wrap_add(x, 0, w), wrap_add(y, -1, h)) == g2.cell(
        wrap_add(x, 0, w),
        wrap_add(y, -1, h),
    )
    &&& g1.cell(wrap_add(x, 1, w), wrap_add(y, -1, h)) == g2.cell(
        wrap_add(x, 1, w),
        wrap_add(y, -1, h),
    )
    &&& g1.cell(wrap_add(x, -1, w), wrap_add(y, 0, h)) == g2.cell(
        wrap_add(x, -1, w),
        wrap_add(y, 0, h),
    )
    &&& g1.cell(wrap_add(x, 1, w), wrap_add(y, 0, h)) == g2.cell(
        wrap_add(x, 1, w),
        wrap_add(y, 0, h),
    )
    &&& g1.cell(wrap_add(x, -1, w), wrap_add(y, 1, h)) == g2.cell(
        wrap_add(x, -1, w),
        wrap_add(y, 1, h),
    )
    &&& g1.cell(wrap_add(x, 0, w), wrap_add(y, 1, h)) == g2.cell(
        wrap_add(x, 0, w),
        wrap_add(y, 1, h),
    )
    &&& g1.cell(wrap_add(x, 1, w), wrap_add(y, 1, h)) == g2.cell(
        wrap_add(x, 1, w),
        wrap_add(y, 1, h),
    )
}

/// Locality of the update rule: the next state of a cell depends only on that
/// cell and its 8 wrapped neighbors, so changing any other cell changes
/// neither the neighbor count nor the next state at `(x, y)`.
pub proof fn lemma_next_cell_local(g1: Grid, g2: Grid, x: int, y: int)
    requires
        g1.width == g2.width,
        g1.height == g2.height,
        agrees_on_neighborhood(g1, g2, x, y),
    ensures
        neighbor_count(g1, x, y) == neighbor_count(g2, x, y),
        next_cell(g1.cell(x, y), neighbor_count(g1, x, y)) == next_cell(
            g2.cell(x, y),
            neighbor_count(g2, x, y),
        ),
{
}

/// One generation computed from an all-dead grid is all dead: every neighbor
/// count is zero and the rule gives no births.
pub proof fn lemma_empty_step(cur: Grid, nxt: Grid)
    requires
        0 < cur.width,
        0 < cur.height,
        cur.all_dead(),
        step_rel(cur, nxt),
    ensures
        nxt.all_dead(),
{
    let w = cur.width as int;
    let h = cur.height as int;
    assert forall|x: int, y: int|
        0 <= x < nxt.width && 0 <= y < nxt.height implies !(#[trigger] nxt.cell(x, y)) by {
        lemma_mod_bound(x - 1 + w, w);
        lemma_mod_bound(x + w, w);
        lemma_mod_bound(x + 1 + w, w);
        lemma_mod_bound(y - 1 + h, h);
        lemma_mod_bound(y + h, h);
        lemma_mod_bound(y + 1 + h, h);
        assert(neighbor_count(cur, x, y) == 0);
    }
}

/// The empty configuration is stable forever: along any chain of generations
/// that starts all dead, every generation is all dead.
pub proof fn lemma_empty_stable(gens: Seq<Grid>)
    requires
        gens.len() > 0,
        0 < gens[0].width,
        0 < gens[0].height,
        gens[0].all_dead(),
        forall|i: int| 0 <= i < gens.len() - 1 ==> #[trigger] step_rel(gens[i], gens[i + 1]),
    ensures
        forall|i: int| 0 <= i < gens.len() ==> (#[trigger] gens[i]).all_dead(),
        forall|i: int|
            0 <= i < gens.len() ==> (#[trigger] gens[i]).width == gens[0].width && gens[i].height
                == gens[0].height,
    decreases gens.len(),
{
    if gens.len() > 1 {
        let prefix = gens.take(gens.len() - 1);
        assert(prefix[0] == gens[0]);
        assert forall|i: int|
            0 <= i < prefix.len() - 1 implies #[trigger] step_rel(prefix[i], prefix[i + 1]) by {
            assert(step_rel(gens[i], gens[i + 1]));
        }
        lemma_empty_stable(prefix);
        let j = gens.len() - 2;
        assert(gens[j] == prefix[j]);
        assert(step_rel(gens[j], gens[j + 1]));
        lemma_empty_step(gens[j], gens[j + 1]);
        assert forall|i: int| 0 <= i < gens.len() implies (#[trigger] gens[i]).all_dead() by {
            if i < gens.len() - 1 {
                assert(gens[i] == prefix[i]);
            } else {
                assert(gens[i] == gens[j + 1]);
            }
        }
        assert forall|i: int|
            0 <= i < gens.len() implies (#[trigger] gens[i]).width == gens[0].width && gens[i].height
            == gens[0].height by {
            if i < gens.len() - 1 {
                assert(gens[i] == prefix[i]);
            } else {
                assert(gens[i] == gens[j + 1]);
            }
        }
    }
}

} // verus!
