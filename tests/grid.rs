use triangulation::grid::Grid;

#[test]
fn with_value_fills_every_cell() {
    let g = Grid::with_value(3, 2, 7u32);
    assert_eq!(g.width(), 3);
    assert_eq!(g.height(), 2);
    for y in 0..2 {
        for x in 0..3 {
            assert_eq!(g.get(x, y), Some(&7));
        }
    }
}

#[test]
fn with_default_fills_with_default() {
    let g: Grid<i64> = Grid::with_default(4, 1);
    assert_eq!(g.width(), 4);
    assert_eq!(g.height(), 1);
    assert_eq!(g.get(3, 0), Some(&0));
}

#[test]
fn get_out_of_bounds_is_none() {
    let g = Grid::with_value(3, 2, 1u8);
    assert_eq!(g.get(3, 0), None);
    assert_eq!(g.get(0, 2), None);
    assert_eq!(g.get(2, 1), Some(&1));
}

#[test]
fn empty_grid_has_no_cells() {
    let g = Grid::with_value(0, 5, 1u8);
    assert_eq!(g.get(0, 0), None);
}

#[test]
fn get_mut_writes_one_cell_of_a_wide_grid() {
    let mut g = Grid::with_value(3, 2, 0u32);
    *g.get_mut(2, 1).unwrap() = 9;
    assert_eq!(g.get(2, 1), Some(&9));
    assert_eq!(g.get(1, 1), Some(&0));
    assert_eq!(g.get(2, 0), Some(&0));
    assert!(g.get_mut(3, 1).is_none());
}

#[test]
fn unchecked_access_matches_checked() {
    let mut g = Grid::with_value(2, 3, 0u32);
    *g.get_unchecked_mut(1, 2) = 5;
    assert_eq!(*g.get_unchecked(1, 2), 5);
    assert_eq!(g.get(1, 2), Some(&5));
    assert_eq!(*g.get_unchecked(0, 2), 0);
}

#[test]
fn set_writes_one_cell_only() {
    let mut g = Grid::with_value(3, 2, 0u32);
    assert!(g.set(2, 0, 4));
    assert!(g.set(0, 1, 6));
    assert_eq!(g.get(2, 0), Some(&4));
    assert_eq!(g.get(0, 1), Some(&6));
    assert_eq!(g.get(1, 0), Some(&0));
    assert_eq!(g.get(2, 1), Some(&0));
    assert!(!g.set(3, 0, 9));
    assert!(!g.set(0, 2, 9));
}
