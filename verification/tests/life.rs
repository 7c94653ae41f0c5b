use game_of_life::Cell;
use game_of_life::SeedError;
use game_of_life::Universe;

#[test]
fn sample_test_separated() {
    assert!(1 == 1);
}

#[test]
fn set_universe_size() {
    let uni = Universe::new(30, 30);
    assert_eq!(uni.cells().len(), 900);
}

#[test]
fn set_empty_universe() {
    let uni = Universe::new(10, 10);
    let cells_to_compare: Vec<(u32, u32)> = vec![];
    assert_eq!(uni.get_live_cells(), cells_to_compare);
}

#[test]
fn set_live_cells() {
    let mut uni = Universe::new(10, 10);
    uni.set_live_cells(&vec![(1, 2), (4, 5), (6, 2)]).unwrap();
    let live_cells = uni.get_live_cells();
    assert_eq!(live_cells, vec![(1, 2), (4, 5), (6, 2)]);
}

#[test]
fn reset_universe() {
    let mut uni = Universe::new(10, 10);
    uni.set_live_cells(&vec![(1, 2), (3, 4)]).unwrap();
    uni.reset();
    assert_eq!(uni.get_live_cells().len(), 0);
}

#[test]
fn single_simple_tick() {
    let mut uni = Universe::new(5, 5);
    // simple 3 fields long bar
    uni.set_live_cells(&vec![(1, 2), (2, 2), (3, 2)]).unwrap();
    uni.tick();
    assert_eq!(uni.get_live_cells(), vec![(2, 1), (2, 2), (2, 3)]);
}

#[test]
fn moving_shape_tick() {
    let mut uni = Universe::new(10, 10);
    uni.set_live_cells(&vec![(1, 2), (2, 3), (3, 1), (3, 2), (3, 3)]).unwrap();
    uni.tick();
    assert_eq!(uni.get_live_cells(), vec![(2, 1), (2, 3), (3, 2), (3, 3), (4, 2)]);
}

#[test]
fn cell_numeric_encoding() {
    assert_eq!(Cell::Dead.as_u8(), 0);
    assert_eq!(Cell::Alive.as_u8(), 1);
}

#[test]
fn new_grid_all_dead() {
    let uni = Universe::new(4, 3);
    assert_eq!(uni.width(), 4);
    assert_eq!(uni.height(), 3);
    assert_eq!(uni.cells().len(), 12);
    for cell in uni.cells() {
        assert_eq!(*cell, Cell::Dead);
    }
    assert_eq!(uni.get_live_cells().len(), 0);
}

#[test]
fn seed_out_of_bounds_row() {
    let mut uni = Universe::new(10, 10);
    let result = uni.set_live_cells(&vec![(1, 1), (10, 0)]);
    assert_eq!(result, Err(SeedError::CoordinateOutOfBounds));
    assert_eq!(uni.get_live_cells().len(), 0);
}

#[test]
fn seed_out_of_bounds_column() {
    let mut uni = Universe::new(10, 10);
    let result = uni.set_live_cells(&vec![(0, 10)]);
    assert_eq!(result, Err(SeedError::CoordinateOutOfBounds));
    assert_eq!(uni.get_live_cells().len(), 0);
}

#[test]
fn seed_order_and_duplicates_irrelevant() {
    let mut uni = Universe::new(10, 10);
    uni.set_live_cells(&vec![(6, 2), (1, 2), (4, 5), (1, 2)]).unwrap();
    assert_eq!(uni.get_live_cells(), vec![(1, 2), (4, 5), (6, 2)]);
}

#[test]
fn wrap_around_corner_counts() {
    let mut uni = Universe::new(4, 4);
    uni.set_live_cells(&vec![(0, 0)]).unwrap();
    // The single live cell at (0, 0) contributes exactly one neighbour
    // to each of its eight toroidal neighbours, across the wrapped
    // edges included.
    assert_eq!(uni.count_live_neighbours(3, 3), 1);
    assert_eq!(uni.count_live_neighbours(3, 0), 1);
    assert_eq!(uni.count_live_neighbours(3, 1), 1);
    assert_eq!(uni.count_live_neighbours(0, 3), 1);
    assert_eq!(uni.count_live_neighbours(1, 3), 1);
    assert_eq!(uni.count_live_neighbours(0, 1), 1);
    assert_eq!(uni.count_live_neighbours(1, 0), 1);
    assert_eq!(uni.count_live_neighbours(1, 1), 1);
    assert_eq!(uni.count_live_neighbours(0, 0), 0);
    // Cells two steps away see nothing.
    assert_eq!(uni.count_live_neighbours(2, 2), 0);
}

#[test]
fn wrap_around_corner_block_is_stable() {
    // The four corners of a 4x4 torus form a 2x2 block, which is a
    // still life; without wrap-around each corner would starve.
    let mut uni = Universe::new(4, 4);
    uni.set_live_cells(&vec![(0, 0), (0, 3), (3, 0), (3, 3)]).unwrap();
    uni.tick();
    assert_eq!(uni.get_live_cells(), vec![(0, 0), (0, 3), (3, 0), (3, 3)]);
}

#[test]
fn all_dead_grid_stays_dead() {
    let mut uni = Universe::new(5, 5);
    uni.tick();
    assert_eq!(uni.get_live_cells().len(), 0);
    uni.tick();
    assert_eq!(uni.get_live_cells().len(), 0);
}

#[test]
fn tick_reads_previous_generation_only() {
    // A horizontal blinker: updating cells in place in row-major order
    // would kill (1, 2)'s neighbours before they are counted and give
    // a different result; the buffered update rotates the bar.
    let mut uni = Universe::new(5, 5);
    uni.set_live_cells(&vec![(1, 1), (1, 2), (1, 3)]).unwrap();
    uni.tick();
    assert_eq!(uni.get_live_cells(), vec![(0, 2), (1, 2), (2, 2)]);
}

#[test]
fn reset_preserves_dimensions() {
    let mut uni = Universe::new(7, 3);
    uni.set_live_cells(&vec![(0, 0), (2, 6)]).unwrap();
    uni.reset();
    assert_eq!(uni.width(), 7);
    assert_eq!(uni.height(), 3);
    assert_eq!(uni.get_live_cells().len(), 0);
}

#[test]
fn one_cell_grid_is_its_own_neighbour() {
    // On a 1x1 torus every one of the eight offsets wraps back to the
    // cell itself, so a live cell counts eight live neighbours and
    // dies of overpopulation.
    let mut uni = Universe::new(1, 1);
    uni.set_live_cells(&vec![(0, 0)]).unwrap();
    assert_eq!(uni.count_live_neighbours(0, 0), 8);
    uni.tick();
    assert_eq!(uni.get_live_cells().len(), 0);
}

#[test]
fn my_tick_matches_tick() {
    let mut a = Universe::new(10, 10);
    let mut b = Universe::new(10, 10);
    let seeds = vec![(1, 2), (2, 3), (3, 1), (3, 2), (3, 3)];
    a.set_live_cells(&seeds).unwrap();
    b.set_live_cells(&seeds).unwrap();
    a.tick();
    b.my_tick();
    assert_eq!(a.get_live_cells(), b.get_live_cells());
}
