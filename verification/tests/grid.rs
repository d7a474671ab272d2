use lifeless::{Cell, Coord, Grid};

fn live_cells<const W: usize, const H: usize>(grid: &Grid<W, H>) -> Vec<Coord> {
    let mut found = Vec::new();
    for y in 0..H {
        for x in 0..W {
            if grid[Coord(x, y)] == Cell::Alive {
                found.push(Coord(x, y));
            }
        }
    }
    found
}

#[test]
fn state_next() {
    let mut grid = Grid::<3, 3>::new();

    // dies of loneliness
    grid[Coord(1, 1)] = Cell::Alive;
    assert_eq!(grid.state_next(Coord(1, 1)), Cell::Dead);
    grid[Coord(0, 1)] = Cell::Alive;
    assert_eq!(grid.state_next(Coord(1, 1)), Cell::Dead);

    // lives on
    grid[Coord(2, 2)] = Cell::Alive;
    assert_eq!(grid.state_next(Coord(1, 1)), Cell::Alive);

    // births anew
    grid[Coord(1, 1)] = Cell::Dead;
    grid[Coord(0, 0)] = Cell::Alive;
    assert_eq!(grid.state_next(Coord(1, 1)), Cell::Alive);

    // dies of overpopulation
    grid[Coord(0, 2)] = Cell::Alive;
    assert_eq!(grid.state_next(Coord(1, 1)), Cell::Dead);
}

#[test]
fn new_grid_is_dead_at_generation_zero() {
    let grid = Grid::<4, 3>::new();
    assert_eq!(grid.generation(), 0);
    assert_eq!(grid.generation, 0);
    assert_eq!(grid.cells, [[Cell::Dead; 4]; 3]);
    assert_eq!(live_cells(&grid), vec![]);
}

#[test]
fn default_grid_equals_new_grid() {
    let grid = Grid::<4, 3>::default();
    let fresh = Grid::<4, 3>::new();
    assert_eq!(grid.generation(), fresh.generation());
    assert_eq!(grid.cells, fresh.cells);
}

#[test]
fn set_overwrites_one_cell_only() {
    let mut grid = Grid::<4, 3>::new();
    grid.set(Coord(3, 1), Cell::Alive);
    assert_eq!(grid.cell_at(Coord(3, 1)), Cell::Alive);
    assert_eq!(live_cells(&grid), vec![Coord(3, 1)]);
    assert_eq!(grid.cells[1][3], Cell::Alive);
    assert_eq!(grid.generation(), 0);
    grid.set(Coord(3, 1), Cell::Dead);
    assert_eq!(live_cells(&grid), vec![]);
}

#[test]
fn index_reads_what_set_wrote() {
    let mut grid = Grid::<4, 3>::new();
    grid.set(Coord(0, 2), Cell::Alive);
    assert_eq!(grid[Coord(0, 2)], Cell::Alive);
    assert_eq!(grid[Coord(2, 0)], Cell::Dead);
}

#[test]
fn index_assignment_writes_what_cell_at_reads() {
    let mut grid = Grid::<4, 3>::new();
    grid[Coord(2, 1)] = Cell::Alive;
    assert_eq!(grid.cell_at(Coord(2, 1)), Cell::Alive);
    assert_eq!(live_cells(&grid), vec![Coord(2, 1)]);
}

#[test]
fn cells_gives_the_rows_for_reading() {
    let mut grid = Grid::<2, 2>::new();
    grid.set(Coord(1, 0), Cell::Alive);
    assert_eq!(
        *grid.cells(),
        [[Cell::Dead, Cell::Alive], [Cell::Dead, Cell::Dead]]
    );
}

#[test]
fn toggle_negates_the_cell() {
    let mut grid = Grid::<3, 3>::new();
    grid.toggle(Coord(2, 0));
    assert_eq!(grid.cell_at(Coord(2, 0)), Cell::Alive);
    assert_eq!(live_cells(&grid), vec![Coord(2, 0)]);
}

#[test]
fn toggle_twice_restores_every_position() {
    let mut grid = Grid::<3, 2>::new();
    grid.set(Coord(1, 0), Cell::Alive);
    grid.set(Coord(2, 1), Cell::Alive);
    let before = grid.clone();
    for y in 0..2 {
        for x in 0..3 {
            grid.toggle(Coord(x, y));
            assert_ne!(grid.cell_at(Coord(x, y)), before.cell_at(Coord(x, y)));
            grid.toggle(Coord(x, y));
            assert_eq!(grid.cells, before.cells);
            assert_eq!(grid.generation, before.generation);
        }
    }
}

#[test]
fn lone_cell_dies_of_underpopulation() {
    let mut grid = Grid::<3, 3>::new();
    grid.set(Coord(1, 1), Cell::Alive);
    assert_eq!(grid.state_next(Coord(1, 1)), Cell::Dead);
}

#[test]
fn cell_with_one_neighbor_dies() {
    let mut grid = Grid::<3, 3>::new();
    grid.set(Coord(1, 1), Cell::Alive);
    grid.set(Coord(0, 1), Cell::Alive);
    assert_eq!(grid.state_next(Coord(1, 1)), Cell::Dead);
}

#[test]
fn cell_with_two_neighbors_stays_as_it_is() {
    let mut grid = Grid::<3, 3>::new();
    grid.set(Coord(0, 1), Cell::Alive);
    grid.set(Coord(2, 2), Cell::Alive);
    assert_eq!(grid.state_next(Coord(1, 1)), Cell::Dead);
    grid.set(Coord(1, 1), Cell::Alive);
    assert_eq!(grid.state_next(Coord(1, 1)), Cell::Alive);
}

#[test]
fn cell_with_three_neighbors_is_alive() {
    let mut grid = Grid::<3, 3>::new();
    grid.set(Coord(0, 0), Cell::Alive);
    grid.set(Coord(0, 1), Cell::Alive);
    grid.set(Coord(2, 2), Cell::Alive);
    assert_eq!(grid.state_next(Coord(1, 1)), Cell::Alive);
    grid.set(Coord(1, 1), Cell::Alive);
    assert_eq!(grid.state_next(Coord(1, 1)), Cell::Alive);
}

#[test]
fn cell_with_four_orthogonal_neighbors_dies() {
    let mut grid = Grid::<3, 3>::new();
    grid.set(Coord(1, 1), Cell::Alive);
    grid.set(Coord(1, 0), Cell::Alive);
    grid.set(Coord(2, 1), Cell::Alive);
    grid.set(Coord(1, 2), Cell::Alive);
    grid.set(Coord(0, 1), Cell::Alive);
    assert_eq!(grid.state_next(Coord(1, 1)), Cell::Dead);
}

#[test]
fn every_neighbor_count_follows_the_rule() {
    let ring = [
        Coord(0, 0),
        Coord(1, 0),
        Coord(2, 0),
        Coord(2, 1),
        Coord(2, 2),
        Coord(1, 2),
        Coord(0, 2),
        Coord(0, 1),
    ];
    for center in [Cell::Dead, Cell::Alive] {
        let mut grid = Grid::<3, 3>::new();
        grid.set(Coord(1, 1), center);
        for live in 0..=8 {
            let expected = match live {
                2 => center,
                3 => Cell::Alive,
                _ => Cell::Dead,
            };
            assert_eq!(grid.state_next(Coord(1, 1)), expected);
            if live < 8 {
                grid.set(ring[live], Cell::Alive);
            }
        }
    }
}

#[test]
fn nothing_beyond_the_edge_counts_as_alive() {
    let mut grid = Grid::<2, 2>::new();
    grid.set(Coord(1, 0), Cell::Alive);
    grid.set(Coord(0, 1), Cell::Alive);
    grid.set(Coord(1, 1), Cell::Alive);
    assert_eq!(grid.state_next(Coord(0, 0)), Cell::Alive);
    assert_eq!(grid.state_next(Coord(1, 1)), Cell::Alive);
    let mut alone = Grid::<1, 1>::new();
    alone.set(Coord(0, 0), Cell::Alive);
    assert_eq!(alone.state_next(Coord(0, 0)), Cell::Dead);
}

#[test]
fn state_next_does_not_change_the_grid() {
    let mut grid = Grid::<3, 3>::new();
    grid.set(Coord(1, 1), Cell::Alive);
    let before = grid.clone();
    let _ = grid.state_next(Coord(1, 1));
    assert_eq!(grid.cells, before.cells);
    assert_eq!(grid.generation, before.generation);
}

#[test]
fn blinker_turns_and_turns_back() {
    let mut grid = Grid::<5, 5>::new();
    grid.set(Coord(1, 2), Cell::Alive);
    grid.set(Coord(2, 2), Cell::Alive);
    grid.set(Coord(3, 2), Cell::Alive);
    let upright = grid.step();
    assert_eq!(
        live_cells(&upright),
        vec![Coord(2, 1), Coord(2, 2), Coord(2, 3)]
    );
    assert_eq!(upright.generation(), 1);
    let flat = upright.step();
    assert_eq!(flat.cells, grid.cells);
    assert_eq!(flat.generation(), 2);
}

#[test]
fn block_is_a_still_life() {
    let mut grid = Grid::<4, 4>::new();
    grid.set(Coord(1, 1), Cell::Alive);
    grid.set(Coord(2, 1), Cell::Alive);
    grid.set(Coord(1, 2), Cell::Alive);
    grid.set(Coord(2, 2), Cell::Alive);
    let next = grid.step();
    assert_eq!(next.cells, grid.cells);
}

#[test]
fn glider_moves_one_cell_diagonally_in_four_steps() {
    let mut grid = Grid::<24, 16>::new();
    grid[Coord(1, 2)] = Cell::Alive;
    grid[Coord(2, 3)] = Cell::Alive;
    grid[Coord(3, 1)] = Cell::Alive;
    grid[Coord(3, 2)] = Cell::Alive;
    grid[Coord(3, 3)] = Cell::Alive;
    let moved = grid.step().step().step().step();
    assert_eq!(
        live_cells(&moved),
        vec![
            Coord(4, 2),
            Coord(2, 3),
            Coord(4, 3),
            Coord(3, 4),
            Coord(4, 4),
        ]
    );
    assert_eq!(moved.generation(), 4);
}

#[test]
fn step_updates_all_cells_at_once() {
    // Updated in place from the top-left, the first row would die before
    // the second row is computed and the centre would not be born.
    let mut grid = Grid::<3, 3>::new();
    grid.set(Coord(0, 0), Cell::Alive);
    grid.set(Coord(1, 0), Cell::Alive);
    grid.set(Coord(2, 0), Cell::Alive);
    let next = grid.step();
    assert_eq!(live_cells(&next), vec![Coord(1, 0), Coord(1, 1)]);
}

#[test]
fn step_raises_the_generation_by_one() {
    let mut grid = Grid::<3, 3>::new();
    grid.generation = 41;
    assert_eq!(grid.step().generation(), 42);
}

#[test]
fn generation_counts_the_steps_from_zero() {
    let mut grid = Grid::<3, 3>::new();
    grid.set(Coord(1, 1), Cell::Alive);
    for n in 0..10 {
        assert_eq!(grid.generation(), n);
        grid = grid.step();
    }
    assert_eq!(grid.generation(), 10);
}

#[test]
fn step_leaves_the_receiver_unchanged() {
    let mut grid = Grid::<5, 5>::new();
    grid.set(Coord(1, 2), Cell::Alive);
    grid.set(Coord(2, 2), Cell::Alive);
    grid.set(Coord(3, 2), Cell::Alive);
    grid.generation = 7;
    let before = grid.clone();
    let next = grid.step();
    assert_eq!(grid.cells, before.cells);
    assert_eq!(grid.generation, 7);
    assert_ne!(next.cells, grid.cells);
}

#[test]
fn dead_grid_stays_dead() {
    let mut grid = Grid::<6, 4>::new();
    for n in 1..=5 {
        grid = grid.step();
        assert_eq!(grid.cells, [[Cell::Dead; 6]; 4]);
        assert_eq!(grid.generation(), n);
    }
}

#[test]
fn grid_without_cells_can_be_stepped() {
    let grid = Grid::<0, 0>::new();
    assert_eq!(grid.step().generation(), 1);
    let flat = Grid::<3, 0>::new();
    assert_eq!(flat.step().generation(), 1);
    let thin = Grid::<0, 3>::new();
    assert_eq!(thin.step().generation(), 1);
}

#[test]
fn clone_copies_cells_and_generation() {
    let mut grid = Grid::<3, 3>::new();
    grid.set(Coord(2, 2), Cell::Alive);
    grid.generation = 3;
    let copy = grid.clone();
    assert_eq!(copy.cells, grid.cells);
    assert_eq!(copy.generation, 3);
}
