use game_of_life::{Cell, Grid};

fn live_cells(grid: &Grid, width: u8, height: u8) -> Vec<(u8, u8)> {
    let mut live = Vec::new();
    for y in 0..height {
        for x in 0..width {
            let cell = grid.get_cell(x as i16, y as i16).expect("a cell on the grid");
            if cell.is_alive() {
                live.push((x, y));
            }
        }
    }
    live
}

#[test]
fn every_position_has_its_own_cell() {
    let grid = Grid::new(7, 4, vec![(1, 1)]);
    let mut seen = Vec::new();
    for y in 0..4u8 {
        for x in 0..7u8 {
            let cell = grid.get_cell(x as i16, y as i16).expect("a cell on the grid");
            assert_eq!(cell.get_coords(), (x, y));
            assert!(!seen.contains(&cell.get_coords()));
            seen.push(cell.get_coords());
        }
    }
    assert_eq!(seen.len(), 7 * 4);
}

#[test]
fn frame_has_one_glyph_per_cell() {
    let grid = Grid::new(7, 4, vec![(1, 1), (6, 3)]);
    let frame = grid.print_grid();
    let glyphs = frame.chars().filter(|c| *c == 'O' || *c == '.').count();
    assert_eq!(glyphs, 7 * 4);
    assert_eq!(frame.chars().filter(|c| *c == 'O').count(), 2);
    assert_eq!(frame.lines().count(), 4);
}

#[test]
fn lookup_beyond_the_border_finds_nothing() {
    let grid = Grid::new(3, 2, vec![(0, 0), (2, 1)]);
    assert!(grid.get_cell(-1, 0).is_none());
    assert!(grid.get_cell(0, -1).is_none());
    assert!(grid.get_cell(3, 0).is_none());
    assert!(grid.get_cell(0, 2).is_none());
    assert!(grid.get_cell(3, 2).is_none());
    assert!(grid.get_cell(-1, -1).is_none());
    assert!(grid.get_cell(i16::MAX, 0).is_none());
    assert!(grid.get_cell(0, i16::MIN).is_none());
    assert!(grid.get_cell(2, 1).is_some());
    assert!(grid.get_cell(0, 0).is_some());
}

#[test]
fn lookup_on_an_empty_grid_finds_nothing() {
    let none = Grid::new(0, 0, vec![]);
    assert!(none.get_cell(0, 0).is_none());
    let no_columns = Grid::new(0, 5, vec![(0, 0)]);
    assert!(no_columns.get_cell(0, 0).is_none());
    assert!(no_columns.get_cell(0, 4).is_none());
    let no_rows = Grid::new(5, 0, vec![(0, 0)]);
    assert!(no_rows.get_cell(0, 0).is_none());
    assert!(no_rows.get_cell(4, 0).is_none());
}

#[test]
fn seeds_start_alive_and_nothing_else() {
    let grid = Grid::new(4, 3, vec![(3, 2), (0, 0), (1, 2)]);
    assert_eq!(live_cells(&grid, 4, 3), vec![(0, 0), (1, 2), (3, 2)]);
}

#[test]
fn seeds_beyond_the_border_are_ignored() {
    let grid = Grid::new(3, 3, vec![(3, 0), (0, 3), (200, 200), (1, 1)]);
    assert_eq!(live_cells(&grid, 3, 3), vec![(1, 1)]);
}

#[test]
fn repeated_seeds_count_once() {
    let grid = Grid::new(3, 3, vec![(1, 1), (1, 1), (1, 1)]);
    assert_eq!(live_cells(&grid, 3, 3), vec![(1, 1)]);
}

#[test]
fn blinker_oscillates_with_period_two() {
    let mut grid = Grid::new(5, 5, vec![(1, 2), (2, 2), (3, 2)]);
    grid.step_forward();
    assert_eq!(live_cells(&grid, 5, 5), vec![(2, 1), (2, 2), (2, 3)]);
    grid.step_forward();
    assert_eq!(live_cells(&grid, 5, 5), vec![(1, 2), (2, 2), (3, 2)]);
}

#[test]
fn empty_grid_stays_dead() {
    for (width, height) in [(0u8, 0u8), (0, 3), (3, 0), (1, 1), (5, 5), (16, 16), (40, 7)] {
        let mut grid = Grid::new(width, height, vec![]);
        for _ in 0..5 {
            grid.step_forward();
            assert_eq!(live_cells(&grid, width, height), vec![]);
        }
    }
}

#[test]
fn lone_cell_dies() {
    let mut grid = Grid::new(5, 5, vec![(2, 2)]);
    grid.step_forward();
    assert_eq!(live_cells(&grid, 5, 5), vec![]);
}

#[test]
fn lone_cell_in_a_corner_dies() {
    let mut grid = Grid::new(1, 1, vec![(0, 0)]);
    grid.step_forward();
    assert_eq!(live_cells(&grid, 1, 1), vec![]);
}

#[test]
fn block_is_a_still_life() {
    let block = vec![(1, 1), (2, 1), (1, 2), (2, 2)];
    let mut grid = Grid::new(4, 4, block.clone());
    for _ in 0..10 {
        grid.step_forward();
        assert_eq!(live_cells(&grid, 4, 4), block);
    }
}

#[test]
fn block_against_the_border_is_a_still_life() {
    let block = vec![(0, 0), (1, 0), (0, 1), (1, 1)];
    let mut grid = Grid::new(2, 2, block.clone());
    for _ in 0..3 {
        grid.step_forward();
        assert_eq!(live_cells(&grid, 2, 2), block);
    }
}

#[test]
fn corner_has_three_neighbours() {
    // All nine cells alive: the corners see three neighbours and survive, the
    // edges see five and the centre eight.
    let mut seeds = Vec::new();
    for y in 0..3u8 {
        for x in 0..3u8 {
            seeds.push((x, y));
        }
    }
    let mut grid = Grid::new(3, 3, seeds);
    grid.step_forward();
    assert_eq!(live_cells(&grid, 3, 3), vec![(0, 0), (2, 0), (0, 2), (2, 2)]);
}

#[test]
fn corner_counts_only_cells_on_the_grid() {
    // Two live neighbours of the dead corner: were anything beyond the border
    // to count, the corner would come alive.
    let mut grid = Grid::new(3, 3, vec![(1, 0), (0, 1)]);
    grid.step_forward();
    assert!(!grid.get_cell(0, 0).unwrap().is_alive());
    // With the third neighbour it does.
    let mut grid = Grid::new(3, 3, vec![(1, 0), (0, 1), (1, 1)]);
    grid.step_forward();
    assert!(grid.get_cell(0, 0).unwrap().is_alive());
}

#[test]
fn edges_do_not_wrap_around() {
    // Three cells in the rightmost column: the cell left of their middle comes
    // alive, the one at the opposite edge does not.
    let mut grid = Grid::new(4, 3, vec![(3, 0), (3, 1), (3, 2)]);
    grid.step_forward();
    assert_eq!(live_cells(&grid, 4, 3), vec![(2, 1), (3, 1)]);
    // And the same from top to bottom.
    let mut grid = Grid::new(3, 4, vec![(0, 3), (1, 3), (2, 3)]);
    grid.step_forward();
    assert_eq!(live_cells(&grid, 3, 4), vec![(1, 2), (1, 3)]);
}

#[test]
fn same_state_gives_same_next_state() {
    let seeds = vec![(1, 0), (2, 1), (0, 2), (1, 2), (2, 2)];
    let mut first = Grid::new(6, 6, seeds.clone());
    let mut second = Grid::new(6, 6, seeds);
    for _ in 0..8 {
        first.step_forward();
        second.step_forward();
        assert_eq!(live_cells(&first, 6, 6), live_cells(&second, 6, 6));
        assert_eq!(first.print_grid(), second.print_grid());
    }
}

#[test]
fn seed_order_does_not_matter() {
    let mut first = Grid::new(6, 6, vec![(1, 0), (2, 1), (0, 2), (1, 2), (2, 2)]);
    let mut second = Grid::new(6, 6, vec![(2, 2), (1, 2), (0, 2), (2, 1), (1, 0)]);
    first.step_forward();
    second.step_forward();
    assert_eq!(first.print_grid(), second.print_grid());
}

fn neighbours_of(snapshot: &Grid, x: i16, y: i16) -> Vec<Option<&Cell>> {
    let mut around = Vec::new();
    for i in [x - 1, x, x + 1] {
        for j in [y - 1, y, y + 1] {
            if i == x && j == y {
                continue;
            }
            around.push(snapshot.get_cell(i, j));
        }
    }
    around
}

#[test]
fn cells_are_judged_on_the_state_before_the_step() {
    // A glider, advanced cell by cell from a snapshot, once forwards and once
    // backwards, must agree with the grid's own step.
    let seeds = vec![(1, 0), (2, 1), (0, 2), (1, 2), (2, 2)];
    let snapshot = Grid::new(5, 5, seeds.clone());
    let mut forwards = Vec::new();
    for y in 0..5i16 {
        for x in 0..5i16 {
            let mut cell = Cell::new(x as u8, y as u8, snapshot.get_cell(x, y).unwrap().is_alive());
            cell.update_state(neighbours_of(&snapshot, x, y));
            if cell.is_alive() {
                forwards.push((x as u8, y as u8));
            }
        }
    }
    let mut backwards = Vec::new();
    for y in (0..5i16).rev() {
        for x in (0..5i16).rev() {
            let mut cell = Cell::new(x as u8, y as u8, snapshot.get_cell(x, y).unwrap().is_alive());
            cell.update_state(neighbours_of(&snapshot, x, y));
            if cell.is_alive() {
                backwards.push((x as u8, y as u8));
            }
        }
    }
    backwards.reverse();
    let mut grid = Grid::new(5, 5, seeds);
    grid.step_forward();
    assert_eq!(forwards, backwards);
    assert_eq!(live_cells(&grid, 5, 5), forwards);
    assert_eq!(forwards, vec![(0, 1), (2, 1), (1, 2), (2, 2), (1, 3)]);
}

#[test]
fn step_keeps_every_cell_in_its_place() {
    let mut grid = Grid::new(6, 3, vec![(1, 1), (2, 1), (3, 1)]);
    grid.step_forward();
    for y in 0..3u8 {
        for x in 0..6u8 {
            assert_eq!(grid.get_cell(x as i16, y as i16).unwrap().get_coords(), (x, y));
        }
    }
    assert!(grid.get_cell(6, 0).is_none());
    assert!(grid.get_cell(0, 3).is_none());
}

#[test]
fn largest_grid_advances() {
    let mut grid = Grid::new(255, 255, vec![(253, 254), (254, 254), (252, 254), (0, 0)]);
    assert!(grid.get_cell(254, 254).unwrap().is_alive());
    assert_eq!(grid.get_cell(254, 254).unwrap().get_coords(), (254, 254));
    grid.step_forward();
    assert!(grid.get_cell(253, 254).unwrap().is_alive());
    assert!(grid.get_cell(253, 253).unwrap().is_alive());
    assert!(!grid.get_cell(254, 254).unwrap().is_alive());
    assert!(!grid.get_cell(252, 254).unwrap().is_alive());
    assert!(!grid.get_cell(0, 0).unwrap().is_alive());
    assert!(grid.get_cell(255, 254).is_none());
}

#[test]
fn frame_shows_the_highest_row_first() {
    let grid = Grid::new(3, 2, vec![(0, 0), (2, 1)]);
    assert_eq!(grid.print_grid(), ". . O \nO . . \n");
}

#[test]
fn frame_of_a_single_cell() {
    assert_eq!(Grid::new(1, 1, vec![(0, 0)]).print_grid(), "O \n");
    assert_eq!(Grid::new(1, 1, vec![]).print_grid(), ". \n");
}

#[test]
fn frame_of_a_grid_without_cells_is_empty() {
    assert_eq!(Grid::new(0, 0, vec![]).print_grid(), "");
    assert_eq!(Grid::new(0, 4, vec![]).print_grid(), "");
    assert_eq!(Grid::new(4, 0, vec![]).print_grid(), "");
}

#[test]
fn frame_of_the_blinker() {
    let mut grid = Grid::new(5, 5, vec![(1, 2), (2, 2), (3, 2)]);
    assert_eq!(
        grid.print_grid(),
        ". . . . . \n. . . . . \n. O O O . \n. . . . . \n. . . . . \n"
    );
    grid.step_forward();
    assert_eq!(
        grid.print_grid(),
        ". . . . . \n. . O . . \n. . O . . \n. . O . . \n. . . . . \n"
    );
}

#[test]
fn clone_is_an_independent_copy() {
    let mut grid = Grid::new(5, 5, vec![(1, 2), (2, 2), (3, 2)]);
    let snapshot = grid.clone();
    grid.step_forward();
    assert_eq!(live_cells(&snapshot, 5, 5), vec![(1, 2), (2, 2), (3, 2)]);
    assert_eq!(live_cells(&grid, 5, 5), vec![(2, 1), (2, 2), (2, 3)]);
}
