use game_of_life::{calc_new_state, unwrap_cell_state_value, Cell, State};

fn neighbours(cells: &[Cell], missing: usize) -> Vec<Option<&Cell>> {
    let mut around: Vec<Option<&Cell>> = cells.iter().map(Some).collect();
    for _ in 0..missing {
        around.push(None);
    }
    around
}

fn cells_with(live: usize, dead: usize) -> Vec<Cell> {
    let mut cells = Vec::new();
    for i in 0..live {
        cells.push(Cell::new(i as u8, 0, true));
    }
    for i in 0..dead {
        cells.push(Cell::new(i as u8, 1, false));
    }
    cells
}

#[test]
fn new_cell_has_its_position_and_state() {
    let alive = Cell::new(3, 7, true);
    assert_eq!(alive.get_coords(), (3, 7));
    assert!(alive.is_alive());
    let dead = Cell::new(255, 0, false);
    assert_eq!(dead.get_coords(), (255, 0));
    assert!(!dead.is_alive());
}

#[test]
fn glyph_tells_alive_from_dead() {
    assert_eq!(Cell::new(0, 0, true).glyph(), 'O');
    assert_eq!(Cell::new(0, 0, false).glyph(), '.');
}

#[test]
fn dead_cell_with_three_neighbours_comes_alive() {
    let cells = cells_with(3, 5);
    assert_eq!(calc_new_state(State::Dead, neighbours(&cells, 0)), State::Alive);
}

#[test]
fn live_cell_with_two_or_three_neighbours_stays_alive() {
    let two = cells_with(2, 6);
    assert_eq!(calc_new_state(State::Alive, neighbours(&two, 0)), State::Alive);
    let three = cells_with(3, 5);
    assert_eq!(calc_new_state(State::Alive, neighbours(&three, 0)), State::Alive);
}

#[test]
fn rule_table_for_every_count() {
    for live in 0..=8usize {
        let cells = cells_with(live, 8 - live);
        let from_alive = calc_new_state(State::Alive, neighbours(&cells, 0));
        let from_dead = calc_new_state(State::Dead, neighbours(&cells, 0));
        let stays = if live == 2 || live == 3 { State::Alive } else { State::Dead };
        let born = if live == 3 { State::Alive } else { State::Dead };
        assert_eq!(from_alive, stays, "alive with {} neighbours", live);
        assert_eq!(from_dead, born, "dead with {} neighbours", live);
    }
}

#[test]
fn missing_neighbours_count_as_dead() {
    // A corner: three neighbours on the grid, five beyond the border.
    let cells = cells_with(2, 1);
    assert_eq!(calc_new_state(State::Dead, neighbours(&cells, 5)), State::Dead);
    assert_eq!(calc_new_state(State::Alive, neighbours(&cells, 5)), State::Alive);
    let cells = cells_with(3, 0);
    assert_eq!(calc_new_state(State::Dead, neighbours(&cells, 5)), State::Alive);
    assert_eq!(calc_new_state(State::Alive, vec![None; 8]), State::Dead);
    assert_eq!(calc_new_state(State::Dead, vec![None; 8]), State::Dead);
}

#[test]
fn no_neighbours_at_all() {
    assert_eq!(calc_new_state(State::Alive, vec![]), State::Dead);
    assert_eq!(calc_new_state(State::Dead, vec![]), State::Dead);
}

#[test]
fn many_live_neighbours_are_counted_without_wrapping() {
    // 258 live neighbours: a count kept in a byte would read 2.
    let cells = cells_with(258, 0);
    assert_eq!(calc_new_state(State::Alive, neighbours(&cells, 0)), State::Dead);
    let cells = cells_with(259, 0);
    assert_eq!(calc_new_state(State::Dead, neighbours(&cells, 0)), State::Dead);
}

#[test]
fn neighbour_values() {
    let alive = Cell::new(0, 0, true);
    let dead = Cell::new(0, 0, false);
    assert_eq!(unwrap_cell_state_value(Some(&alive)), 1);
    assert_eq!(unwrap_cell_state_value(Some(&dead)), 0);
    assert_eq!(unwrap_cell_state_value(None), 0);
}

#[test]
fn update_state_follows_the_rule_and_keeps_the_position() {
    let three = cells_with(3, 5);
    let mut cell = Cell::new(4, 9, false);
    cell.update_state(neighbours(&three, 0));
    assert!(cell.is_alive());
    assert_eq!(cell.get_coords(), (4, 9));
    let four = cells_with(4, 4);
    cell.update_state(neighbours(&four, 0));
    assert!(!cell.is_alive());
    assert_eq!(cell.get_coords(), (4, 9));
    let one = cells_with(1, 7);
    let mut lonely = Cell::new(1, 1, true);
    lonely.update_state(neighbours(&one, 0));
    assert!(!lonely.is_alive());
}
