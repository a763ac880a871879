//! A single grid position and the rule that decides its fate.

use vstd::prelude::*;

verus! {

/// Whether a position is populated.
#[derive(Clone, Copy, Debug, PartialEq, Eq, Structural)]
pub enum State {
    Alive,
    Dead,
}

/// One position of a grid: fixed coordinates and a state that changes from
/// generation to generation.
#[derive(Clone, Copy, Debug)]
pub struct Cell {
    state: State,
    x: u8,
    y: u8,
}

/// The rule of the game: a populated position stays populated with two or three
/// live neighbours, an empty one becomes populated with exactly three.
pub open spec fn lives_next(alive: bool, live_neighbours: nat) -> bool {
    live_neighbours == 3 || (alive && live_neighbours == 2)
}

/// What one neighbour adds to the live count: one if it exists and is alive.
pub open spec fn neighbour_value(neighbour: Option<&Cell>) -> nat {
    match neighbour {
        Some(cell) => if cell.alive() { 1 } else { 0 },
        None => 0,
    }
}

/// The number of live cells among `neighbours`; positions beyond the border
/// (`None`) count as dead.
pub open spec fn live_count(neighbours: Seq<Option<&Cell>>) -> nat
    decreases neighbours.len(),
{
    if neighbours.len() == 0 {
        0
    } else {
        live_count(neighbours.drop_last()) + neighbour_value(neighbours.last())
    }
}

impl Cell {
    /// Whether the cell is populated.
    pub closed spec fn alive(&self) -> bool {
        self.state == State::Alive
    }

    /// The cell's position, column first.
    pub closed spec fn coords(&self) -> (u8, u8) {
        (self.x, self.y)
    }

    /// The cell at `(x, y)`, alive or dead as asked.
    pub fn new(x: u8, y: u8, alive: bool) -> (cell: Self)
        ensures
            cell.coords() == (x, y),
            cell.alive() == alive,
    {
        Self { state: if alive { State::Alive } else { State::Dead }, x, y }
    }

    /// Replaces the state by the one the rule gives for the current state and
    /// the given neighbours. The position stays what it was.
    pub fn update_state(&mut self, neighbours: Vec<Option<&Cell>>)
        ensures
            final(self).coords() == old(self).coords(),
            final(self).alive() == lives_next(old(self).alive(), live_count(neighbours@)),
    {
        self.state = calc_new_state(self.state, neighbours);
    }

    /// The cell's position, column first.
    pub fn get_coords(&self) -> (coords: (u8, u8))
        ensures
            coords == self.coords(),
    {
        (self.x, self.y)
    }

    /// Whether the cell is populated.
    pub fn is_alive(&self) -> (alive: bool)
        ensures
            alive == self.alive(),
    {
        self.state == State::Alive
    }

    /// The character that stands for the cell in a rendered frame.
    pub fn glyph(&self) -> (c: char)
        ensures
            c == glyph_of(self.alive()),
    {
        if self.state == State::Alive {
            'O'
        } else {
            '.'
        }
    }
}

/// `'O'` for a live cell, `'.'` for a dead one.
pub open spec fn glyph_of(alive: bool) -> char {
    if alive {
        'O'
    } else {
        '.'
    }
}

/// The next state of a cell that is in `current_state` and has the given
/// neighbours.
pub fn calc_new_state(current_state: State, neighbours: Vec<Option<&Cell>>) -> (next: State)
    ensures
        next == if lives_next(current_state == State::Alive, live_count(neighbours@)) {
            State::Alive
        } else {
            State::Dead
        },
{
    let mut live_neighbour_count: usize = 0;
    let mut i: usize = 0;
    while i < neighbours.len()
        invariant
            i <= neighbours.len(),
            live_neighbour_count == live_count(neighbours@.take(i as int)),
            live_neighbour_count <= i,
        decreases neighbours.len() - i,
    {
        proof {
            assert(neighbours@.take(i + 1).drop_last() =~= neighbours@.take(i as int));
        }
        if unwrap_cell_state_value(neighbours[i]) == 1 {
            live_neighbour_count = live_neighbour_count + 1;
        }
        i = i + 1;
    }
    proof {
        assert(neighbours@.take(neighbours.len() as int) =~= neighbours@);
    }
    if current_state == State::Alive && (live_neighbour_count == 2 || live_neighbour_count == 3) {
        State::Alive
    } else if current_state == State::Dead && live_neighbour_count == 3 {
        State::Alive
    } else {
        State::Dead
    }
}

/// One for a live cell, zero for a dead or a missing one.
pub fn unwrap_cell_state_value(cell_option: Option<&Cell>) -> (value: u8)
    ensures
        value == neighbour_value(cell_option),
{
    match cell_option {
        Some(cell) => match cell.state {
            State::Alive => 1,
            State::Dead => 0,
        },
        None => 0,
    }
}

} // verus!
