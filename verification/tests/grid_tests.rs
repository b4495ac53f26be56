use game_of_life::color::{get_color, Rgba};
use game_of_life::grid::{create_grid, spawn_blinker, spawn_glider, stamp_pattern, Grid, Pattern};

fn live_set(g: &Grid) -> Vec<(usize, usize)> {
    g.live_cells()
}

fn sorted_row_major(mut cells: Vec<(usize, usize)>) -> Vec<(usize, usize)> {
    cells.sort_by(|a, b| (a.1, a.0).cmp(&(b.1, b.0)));
    cells
}

#[test]
fn create_grid_is_all_dead() {
    let g = create_grid(200, 100);
    assert_eq!(g.width, 200);
    assert_eq!(g.height, 100);
    for y in 0..100 {
        for x in 0..200 {
            assert!(!g.get(x, y));
        }
    }
    assert!(g.live_cells().is_empty());
}

#[test]
fn glider_offsets_exact() {
    let p = Pattern::glider();
    assert_eq!(p.offsets, vec![(1, 0), (2, 1), (0, 2), (1, 2), (2, 2)]);
}

#[test]
fn blinker_offsets_exact() {
    let p = Pattern::blinker();
    assert_eq!(p.offsets, vec![(0, 1), (1, 1), (2, 1)]);
}

#[test]
fn pulsar_offsets_exact() {
    let p = Pattern::pulsar();
    let expected = vec![
        (2, 0),
        (3, 0),
        (4, 0),
        (8, 0),
        (9, 0),
        (10, 0),
        (0, 2),
        (5, 2),
        (7, 2),
        (12, 2),
        (0, 3),
        (5, 3),
        (7, 3),
        (12, 3),
        (0, 4),
        (5, 4),
        (7, 4),
        (12, 4),
        (2, 5),
        (3, 5),
        (4, 5),
        (8, 5),
        (9, 5),
        (10, 5),
        (2, 7),
        (3, 7),
        (4, 7),
        (8, 7),
        (9, 7),
        (10, 7),
        (0, 8),
        (5, 8),
        (7, 8),
        (12, 8),
        (0, 9),
        (5, 9),
        (7, 9),
        (12, 9),
        (0, 10),
        (5, 10),
        (7, 10),
        (12, 10),
        (2, 12),
        (3, 12),
        (4, 12),
        (8, 12),
        (9, 12),
        (10, 12),
    ];
    assert_eq!(p.offsets, expected);
}

#[test]
fn dinosaur_offsets_exact() {
    let p = Pattern::dinosaur();
    let expected = vec![
        (6, 0),
        (7, 0),
        (8, 0),
        (5, 1),
        (6, 1),
        (7, 1),
        (8, 1),
        (7, 1),
        (4, 2),
        (5, 2),
        (6, 2),
        (7, 2),
        (8, 2),
        (9, 2),
        (3, 3),
        (4, 3),
        (5, 3),
        (6, 3),
        (7, 3),
        (8, 3),
        (9, 3),
        (6, 4),
        (6, 5),
        (2, 4),
        (3, 4),
        (4, 4),
        (5, 4),
        (1, 5),
        (2, 5),
        (3, 5),
        (4, 5),
        (0, 6),
        (1, 6),
        (2, 6),
        (3, 6),
        (0, 7),
        (1, 7),
        (2, 7),
        (6, 6),
        (7, 6),
    ];
    assert_eq!(p.offsets, expected);
}

#[test]
fn stamp_blinker_sets_exact_cells() {
    let mut g = create_grid(10, 10);
    spawn_blinker(&mut g, 0, 0);
    assert_eq!(live_set(&g), vec![(0, 1), (1, 1), (2, 1)]);
}

#[test]
fn stamp_wraps_offsets_around_edges() {
    let mut g = create_grid(10, 10);
    spawn_glider(&mut g, 8, 8);
    // offsets (1,0) (2,1) (0,2) (1,2) (2,2) land, after wrapping, on
    // (9,8) (0,9) (8,0) (9,0) (0,0)
    let expected = sorted_row_major(vec![(9, 8), (0, 9), (8, 0), (9, 0), (0, 0)]);
    assert_eq!(live_set(&g), expected);
}

#[test]
fn stamp_twice_same_anchor_is_idempotent() {
    let mut once = create_grid(20, 20);
    spawn_glider(&mut once, 5, 5);
    let mut twice = create_grid(20, 20);
    spawn_glider(&mut twice, 5, 5);
    spawn_glider(&mut twice, 5, 5);
    assert_eq!(live_set(&once), live_set(&twice));
}

#[test]
fn stamp_out_of_range_anchor_equals_reduced_anchor() {
    let mut far = create_grid(200, 100);
    spawn_glider(&mut far, 205, 103);
    let mut near = create_grid(200, 100);
    spawn_glider(&mut near, 5, 3);
    assert_eq!(live_set(&far), live_set(&near));
}

#[test]
fn overlapping_stamps_keep_earlier_live_cells() {
    let mut g = create_grid(10, 10);
    spawn_blinker(&mut g, 0, 0);
    let p = Pattern::glider();
    stamp_pattern(&mut g, &p, 0, 0);
    // the union of both patterns at the shared anchor
    let expected = sorted_row_major(vec![
        (1, 0),
        (0, 1),
        (1, 1),
        (2, 1),
        (0, 2),
        (1, 2),
        (2, 2),
    ]);
    assert_eq!(live_set(&g), expected);
}

#[test]
fn live_cells_are_sorted_and_unique() {
    let mut g = create_grid(15, 15);
    spawn_glider(&mut g, 2, 2);
    spawn_blinker(&mut g, 2, 2);
    let cells = live_set(&g);
    for pair in cells.windows(2) {
        let (a, b) = (pair[0], pair[1]);
        assert!(a.1 < b.1 || (a.1 == b.1 && a.0 < b.0));
    }
    for &(x, y) in &cells {
        assert!(g.get(x, y));
    }
}

#[test]
fn get_color_matches_palette() {
    assert_eq!(
        get_color(true),
        Rgba { red: 207, green: 171, blue: 74, alpha: 255 }
    );
    assert_eq!(
        get_color(false),
        Rgba { red: 41, green: 43, blue: 48, alpha: 255 }
    );
}
