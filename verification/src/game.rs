//! A game: one grid, advanced a generation at a time and rendered as text.

use crate::board::Board;
use crate::config::Config;
use crate::grid::Grid;
use vstd::prelude::*;

verus! {

/// A struct representing the Game of Life game state.
pub struct Game {
    grid: Grid,
}

impl View for Game {
    type V = Board;

    /// The board that the game currently shows.
    closed spec fn view(&self) -> Board {
        self.grid@
    }
}

impl Game {
    /// Initialise a new game on the grid that `config` describes.
    pub fn new(config: Config) -> (game: Self)
        ensures
            game@ == Board::seeded(
                config.grid_width() as nat,
                config.grid_height() as nat,
                config.starting_cells(),
            ),
    {
        let x = config.get_x();
        let y = config.get_y();
        let starting_cells = config.get_starting_cells();

        Self { grid: Grid::new(x, y, starting_cells) }
    }

    /// Runs one game cycle.
    pub fn step_forward(&mut self)
        ensures
            final(self)@ == old(self)@.next(),
    {
        self.grid.step_forward();
    }

    /// The current game state as text, ready to be shown.
    pub fn print_game_state(&self) -> (text: String)
        ensures
            text@ == self@.frame(),
    {
        self.grid.print_grid()
    }

    /// Runs one cycle and returns the new game state as text.
    pub fn step(&mut self) -> (text: String)
        ensures
            final(self)@ == old(self)@.next(),
            text@ == final(self)@.frame(),
    {
        self.step_forward();
        self.print_game_state()
    }
}

/// The cycles of a run, counted from zero.
#[derive(Clone, Copy, Debug, PartialEq, Eq, Structural)]
pub enum CycleRange {
    /// Every cycle: the run has no end.
    Unbounded,
    /// The cycles below the given number.
    Bounded(usize),
}

impl CycleRange {
    /// Whether the cycle with the given number belongs to the run.
    pub open spec fn includes(self, cycle: nat) -> bool {
        match self {
            CycleRange::Unbounded => true,
            CycleRange::Bounded(end) => cycle < end,
        }
    }

    /// Whether the run goes on after `done` cycles.
    pub fn contains(&self, done: usize) -> (more: bool)
        ensures
            more == self.includes(done as nat),
    {
        match self {
            CycleRange::Unbounded => true,
            CycleRange::Bounded(end) => done < *end,
        }
    }
}

/// The cycles of a run that is asked to take `end` cycles, where `0` asks for
/// a run without end.
pub fn get_cycle_range(end: usize) -> (range: CycleRange)
    ensures
        range == if end == 0 {
            CycleRange::Unbounded
        } else {
            CycleRange::Bounded(end)
        },
{
    if end == 0 {
        CycleRange::Unbounded
    } else {
        CycleRange::Bounded(end)
    }
}

} // verus!
