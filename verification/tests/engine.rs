use conway::cell::Cell;
use conway::colony::Colony;
use conway::liveset::LiveSet;

fn cells_of(coords: &[(i64, i64)]) -> Vec<Cell> {
    coords.iter().map(|&(x, y)| Cell { x, y }).collect()
}

fn colony_of(coords: &[(i64, i64)], paused: bool) -> Colony {
    Colony { grid: LiveSet::from_cells(&cells_of(coords)), is_paused: paused }
}

fn same_cells(grid: &LiveSet, coords: &[(i64, i64)]) -> bool {
    grid.set_eq(&LiveSet::from_cells(&cells_of(coords)))
}

#[test]
fn empty_liveset_has_empty_count_mapping() {
    let c = Colony::new();
    assert_eq!(c.neighbour_count().len(), 0);
}

#[test]
fn single_cell_count_mapping() {
    // the mapping holds exactly the 8 neighbours of (5,5), each with count 1;
    // (5,5) itself has no live neighbour and is absent
    let c = colony_of(&[(5, 5)], true);
    let counts = c.neighbour_count();
    assert_eq!(counts.len(), 8);
    for (cell, n) in &counts {
        assert_eq!(*n, 1);
        assert!((cell.x - 5).abs() <= 1 && (cell.y - 5).abs() <= 1);
        assert!(!(cell.x == 5 && cell.y == 5));
    }
}

#[test]
fn blinker_centre_counts() {
    // for the horizontal blinker, the centre (1,1) has 2 live neighbours
    // and (0,1) has 3
    let c = colony_of(&[(1, 0), (1, 1), (1, 2)], true);
    let counts = c.neighbour_count();
    let mut centre = None;
    let mut side = None;
    for (cell, n) in &counts {
        if cell.x == 1 && cell.y == 1 {
            centre = Some(*n);
        }
        if cell.x == 0 && cell.y == 1 {
            side = Some(*n);
        }
    }
    assert_eq!(centre, Some(2));
    assert_eq!(side, Some(3));
}

#[test]
fn isolated_cell_dies() {
    let c = colony_of(&[(5, 5)], true);
    let next = c.next_gen();
    assert!(next.grid.is_empty());
}

#[test]
fn next_gen_is_deterministic() {
    let seed = &[(1, 0), (2, 1), (0, 2), (1, 2), (2, 2)];
    let a = colony_of(seed, true).next_gen();
    let b = colony_of(seed, true).next_gen();
    assert!(a.grid.set_eq(&b.grid));
}

#[test]
fn blinker_oscillates_with_period_two() {
    let seed = &[(1, 0), (1, 1), (1, 2)];
    let c = colony_of(seed, true);
    let g1 = c.next_gen();
    assert!(same_cells(&g1.grid, &[(0, 1), (1, 1), (2, 1)]));
    let g2 = g1.next_gen();
    assert!(same_cells(&g2.grid, seed));
}

#[test]
fn glider_translates_by_one_one_after_four_steps() {
    let seed = &[(1, 0), (2, 1), (0, 2), (1, 2), (2, 2)];
    let mut c = colony_of(seed, true);
    for _ in 0..4 {
        c = c.next_gen();
    }
    assert!(same_cells(&c.grid, &[(2, 1), (3, 2), (1, 3), (2, 3), (3, 3)]));
}

#[test]
fn next_gen_keeps_paused_flag() {
    let seed = &[(1, 0), (1, 1), (1, 2)];
    assert!(colony_of(seed, true).next_gen().is_paused);
    assert!(!colony_of(seed, false).next_gen().is_paused);
}

#[test]
fn births_at_the_representable_edge_are_suppressed() {
    // a vertical blinker one step from the smallest representable x: the
    // birth that would land on i64::MIN is dropped by the documented policy
    let m = i64::MIN + 1;
    let c = colony_of(&[(m, 0), (m, 1), (m, 2)], true);
    let next = c.next_gen();
    assert!(same_cells(&next.grid, &[(m, 1), (m + 1, 1)]));
}

#[test]
fn liveset_insert_remove_contains() {
    let mut s = LiveSet::new();
    let p = Cell { x: -3, y: 7 };
    assert!(!s.contains(p));
    s.insert(p);
    assert!(s.contains(p));
    s.insert(p);
    assert!(s.contains(p));
    s.remove(p);
    assert!(!s.contains(p));
    s.remove(p);
    assert!(s.is_empty());
}

#[test]
fn from_cells_collapses_duplicates() {
    let s = LiveSet::from_cells(&cells_of(&[(0, 0), (1, 1), (0, 0)]));
    assert_eq!(s.to_vec().len(), 2);
    assert!(s.contains(Cell { x: 0, y: 0 }));
    assert!(s.contains(Cell { x: 1, y: 1 }));
}

#[test]
fn set_eq_ignores_order() {
    let a = LiveSet::from_cells(&cells_of(&[(0, 0), (1, 1)]));
    let b = LiveSet::from_cells(&cells_of(&[(1, 1), (0, 0)]));
    let c = LiveSet::from_cells(&cells_of(&[(1, 1)]));
    assert!(a.set_eq(&b));
    assert!(!a.set_eq(&c));
    assert!(!c.set_eq(&a));
}

#[test]
fn block_is_a_still_life() {
    let block = &[(0, 0), (0, 1), (1, 0), (1, 1)];
    let next = colony_of(block, true).next_gen();
    assert!(same_cells(&next.grid, block));
}

#[test]
fn tromino_corner_gives_birth_to_a_block() {
    // each live cell has 2 live neighbours and survives; (1,1) has 3 and is born
    let next = colony_of(&[(0, 0), (1, 0), (0, 1)], true).next_gen();
    assert!(same_cells(&next.grid, &[(0, 0), (1, 0), (0, 1), (1, 1)]));
}
