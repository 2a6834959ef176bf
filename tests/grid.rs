use broadcast_hub::{factorial, Grid};

#[test]
fn new_grid_is_empty() {
    let g = Grid::new();
    assert_eq!(g.width(), 32);
    assert_eq!(g.height(), 32);
    assert_eq!(g.count_active_cells(), 0);
    assert_eq!(g.get_index(2, 3), 67);
    assert_eq!(g.get_index(40, 5), 1285);
}

#[test]
fn set_and_toggle_cells() {
    let mut g = Grid::new();
    g.set_cell(1, 1, 1);
    assert_eq!(g.get_cell(1, 1), 1);
    assert_eq!(g.toggle_cell(1, 1), 0);
    assert_eq!(g.toggle_cell(31, 31), 1);
    assert_eq!(g.get_cell(31, 31), 1);
    g.set_cell(0, 0, 5);
    assert_eq!(g.toggle_cell(0, 0), 0);
    assert_eq!(g.count_active_cells(), 1);
    g.clear();
    assert_eq!(g.count_active_cells(), 0);
}

#[test]
fn patterns() {
    let mut g = Grid::new();
    g.fill_pattern("checkerboard");
    assert_eq!(g.count_active_cells(), 512);
    assert_eq!(g.get_cell(0, 0), 1);
    assert_eq!(g.get_cell(0, 1), 0);
    g.fill_pattern("cross");
    assert_eq!(g.count_active_cells(), 63);
    assert_eq!(g.get_cell(16, 0), 1);
    assert_eq!(g.get_cell(0, 16), 1);
    assert_eq!(g.get_cell(0, 0), 0);
    g.fill_pattern("border");
    assert_eq!(g.count_active_cells(), 124);
    assert_eq!(g.get_cell(31, 5), 1);
    assert_eq!(g.get_cell(5, 5), 0);
    g.fill_pattern("spiral");
    assert_eq!(g.count_active_cells(), 124);
}

#[test]
fn randomize_follows_coins() {
    let mut g = Grid::new();
    let coins: Vec<bool> = (0..1024).map(|i| i % 3 == 0).collect();
    g.randomize(&coins);
    assert_eq!(g.count_active_cells(), 342);
    assert_eq!(g.get_cell(0, 0), 1);
    assert_eq!(g.get_cell(0, 1), 0);
}

#[test]
fn factorial_values() {
    assert_eq!(factorial(-3), 1);
    assert_eq!(factorial(0), 1);
    assert_eq!(factorial(1), 1);
    assert_eq!(factorial(5), 120);
    assert_eq!(factorial(12), 479001600);
    assert_eq!(broadcast_hub::add(2, 3), 5);
    assert_eq!(broadcast_hub::add(-7, 3), -4);
}
