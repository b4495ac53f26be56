use game_of_life::grid::{create_grid, spawn_blinker, spawn_glider, spawn_pulsar, Grid};
use game_of_life::life::{compute_next_generation, next_state};

fn step(cur: &Grid) -> Grid {
    let mut next = create_grid(cur.width, cur.height);
    compute_next_generation(cur, &mut next);
    next
}

fn grid_with_live(width: usize, height: usize, live: &[(usize, usize)]) -> Grid {
    let mut g = create_grid(width, height);
    for &(x, y) in live {
        g.cells[y][x] = true;
    }
    g
}

fn sorted_row_major(mut cells: Vec<(usize, usize)>) -> Vec<(usize, usize)> {
    cells.sort_by(|a, b| (a.1, a.0).cmp(&(b.1, b.0)));
    cells
}

#[test]
fn rule_table_is_exact() {
    for n in 0u8..=8 {
        // live cell: survives on 2 or 3 neighbors, dies otherwise
        assert_eq!(next_state(true, n), n == 2 || n == 3);
        // dead cell: born on exactly 3 neighbors, stays dead otherwise
        assert_eq!(next_state(false, n), n == 3);
    }
}

#[test]
fn neighbor_count_stays_in_range() {
    let full = grid_with_live(
        6,
        6,
        &(0..6)
            .flat_map(|y| (0..6).map(move |x| (x, y)))
            .collect::<Vec<_>>(),
    );
    let empty = create_grid(6, 6);
    for y in 0..6 {
        for x in 0..6 {
            assert_eq!(full.count_live_neighbors(x, y), 8);
            assert_eq!(empty.count_live_neighbors(x, y), 0);
        }
    }
}

#[test]
fn neighbor_count_wraps_onto_itself_on_1x1() {
    // on a 1x1 torus every neighbor offset wraps back to the single cell
    let g = grid_with_live(1, 1, &[(0, 0)]);
    assert_eq!(g.count_live_neighbors(0, 0), 8);
}

#[test]
fn neighbor_count_exact_small_grid() {
    let g = grid_with_live(5, 5, &[(1, 1), (2, 1)]);
    assert_eq!(g.count_live_neighbors(1, 1), 1);
    assert_eq!(g.count_live_neighbors(2, 1), 1);
    assert_eq!(g.count_live_neighbors(0, 0), 1);
    assert_eq!(g.count_live_neighbors(1, 0), 2);
    assert_eq!(g.count_live_neighbors(3, 3), 0);
    // wrapped reach: (1,1) and (2,1) are neighbors of row 0 and of row 2
    assert_eq!(g.count_live_neighbors(2, 0), 2);
    assert_eq!(g.count_live_neighbors(2, 2), 2);
}

#[test]
fn neighbor_count_invariant_under_toroidal_shift() {
    let live = [(0, 0), (1, 0), (5, 5), (9, 9), (3, 7)];
    let g = grid_with_live(10, 10, &live);
    let (sx, sy) = (3usize, 2usize);
    // gs holds the contents of g shifted: gs[(i, j)] = g[(i+sx, j+sy) mod 10]
    let mut shifted_live = Vec::new();
    for &(x, y) in &live {
        shifted_live.push(((x + 10 - sx) % 10, (y + 10 - sy) % 10));
    }
    let gs = grid_with_live(10, 10, &shifted_live);
    for y in 0..10 {
        for x in 0..10 {
            assert_eq!(
                gs.count_live_neighbors(x, y),
                g.count_live_neighbors((x + sx) % 10, (y + sy) % 10)
            );
        }
    }
}

#[test]
fn next_generation_is_local() {
    let mut g1 = create_grid(20, 20);
    spawn_blinker(&mut g1, 3, 3);
    let mut g2 = create_grid(20, 20);
    spawn_blinker(&mut g2, 3, 3);
    // change one far-away cell; only its 3x3 neighborhood may differ
    g2.cells[15][15] = true;
    let n1 = step(&g1);
    let n2 = step(&g2);
    for y in 0..20usize {
        for x in 0..20usize {
            let near_change = (14..=16).contains(&x) && (14..=16).contains(&y);
            if !near_change {
                assert_eq!(n1.get(x, y), n2.get(x, y));
            }
        }
    }
}

#[test]
fn blinker_oscillates_with_period_two() {
    let mut g = create_grid(10, 10);
    spawn_blinker(&mut g, 3, 3);
    let start = g.live_cells();
    assert_eq!(start, vec![(3, 4), (4, 4), (5, 4)]);
    let g1 = step(&g);
    assert_eq!(g1.live_cells(), vec![(4, 3), (4, 4), (4, 5)]);
    let g2 = step(&g1);
    assert_eq!(g2.live_cells(), start);
}

#[test]
fn glider_translates_by_one_after_four_generations() {
    let mut g = create_grid(20, 20);
    spawn_glider(&mut g, 5, 5);
    let start = g.live_cells();
    let mut cur = g;
    for _ in 0..4 {
        cur = step(&cur);
    }
    let expected = sorted_row_major(start.iter().map(|&(x, y)| (x + 1, y + 1)).collect());
    assert_eq!(cur.live_cells(), expected);
}

#[test]
fn glider_translates_across_the_edge() {
    let mut g = create_grid(10, 10);
    spawn_glider(&mut g, 7, 7);
    let start = g.live_cells();
    let mut cur = g;
    for _ in 0..4 {
        cur = step(&cur);
    }
    let expected =
        sorted_row_major(start.iter().map(|&(x, y)| ((x + 1) % 10, (y + 1) % 10)).collect());
    assert_eq!(cur.live_cells(), expected);
}

#[test]
fn pulsar_oscillates_with_period_three() {
    let mut g = create_grid(20, 20);
    spawn_pulsar(&mut g, 3, 3);
    let start = g.live_cells();
    let mut cur = g;
    for _ in 0..3 {
        cur = step(&cur);
    }
    assert_eq!(cur.live_cells(), start);
}

#[test]
fn empty_grid_stays_empty() {
    let mut cur = create_grid(50, 30);
    for _ in 0..5 {
        assert!(cur.live_cells().is_empty());
        cur = step(&cur);
    }
    assert!(cur.live_cells().is_empty());
}

#[test]
fn next_generation_reads_only_the_current_snapshot() {
    let mut g = create_grid(10, 10);
    spawn_blinker(&mut g, 3, 3);
    // whatever the scratch buffer held beforehand must not matter
    let mut next_from_clean = create_grid(10, 10);
    compute_next_generation(&g, &mut next_from_clean);
    let mut next_from_dirty = grid_with_live(
        10,
        10,
        &(0..10)
            .flat_map(|y| (0..10).map(move |x| (x, y)))
            .collect::<Vec<_>>(),
    );
    compute_next_generation(&g, &mut next_from_dirty);
    assert_eq!(next_from_clean.live_cells(), next_from_dirty.live_cells());
    // and the source grid is untouched
    assert_eq!(g.live_cells(), vec![(3, 4), (4, 4), (5, 4)]);
}
