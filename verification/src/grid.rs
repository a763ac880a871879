//! The grid: a dense, row-major collection of cells that advances one
//! generation at a time.

use crate::board::{seeded_at, Board};
use crate::cell::{glyph_of, live_count, neighbour_value, Cell};
use vstd::arithmetic::div_mod::lemma_fundamental_div_mod_converse;
use vstd::prelude::*;

verus! {

/// The cells of a `width` by `height` grid stored row by row: there are
/// `width * height` of them, and the one at index `i` sits at column
/// `i % width` of row `i / width`.
pub open spec fn row_major(cells: Seq<Cell>, width: nat, height: nat) -> bool {
    &&& cells.len() == width * height
    &&& forall|i: int|
        0 <= i < cells.len() ==> {
            &&& (#[trigger] cells[i]).coords().0 == i % (width as int)
            &&& cells[i].coords().1 == i / (width as int)
        }
}

/// Whether one of `cells` sits at `(x, y)`.
pub open spec fn has_cell_at(cells: Seq<Cell>, x: int, y: int) -> bool {
    exists|i: int|
        0 <= i < cells.len() && (#[trigger] cells[i]).coords().0 == x && cells[i].coords().1 == y
}

/// Every position of the `width` by `height` grid belongs to exactly one cell,
/// and there are no other cells.
pub open spec fn covers_once(cells: Seq<Cell>, width: nat, height: nat) -> bool {
    &&& cells.len() == width * height
    &&& forall|i: int|
        0 <= i < cells.len() ==> (#[trigger] cells[i]).coords().0 < width && cells[i].coords().1
            < height
    &&& forall|x: int, y: int|
        0 <= x < width && 0 <= y < height ==> #[trigger] has_cell_at(cells, x, y)
    &&& forall|i: int, j: int|
        0 <= i < j < cells.len() ==> (#[trigger] cells[i]).coords() != (#[trigger] cells[j]).coords()
}

/// The index of position `(x, y)` in row-major order lies within the
/// collection, and dividing it by the width gives the position back.
pub proof fn lemma_index_of_position(x: int, y: int, width: int, height: int)
    requires
        0 <= x < width,
        0 <= y < height,
    ensures
        0 <= y * width + x < width * height,
        (y * width + x) % width == x,
        (y * width + x) / width == y,
{
    assert(0 <= y * width && y * width + width <= width * height) by (nonlinear_arith)
        requires
            0 <= y < height,
            0 < width,
    ;
    lemma_fundamental_div_mod_converse(y * width + x, width, y, x);
}

/// An index into a row-major collection names a position on the grid.
pub proof fn lemma_position_of_index(i: int, width: int, height: int)
    requires
        0 <= i < width * height,
        0 <= width,
        0 <= height,
    ensures
        0 <= i % width < width,
        0 <= i / width < height,
        (i / width) * width + i % width == i,
{
    assert(width > 0) by (nonlinear_arith)
        requires
            0 <= i < width * height,
            0 <= width,
    ;
    assert(0 <= i % width < width && 0 <= i / width < height && (i / width) * width + i % width
        == i) by (nonlinear_arith)
        requires
            0 <= i < width * height,
            0 < width,
            0 <= height,
    ;
}

/// Row-major storage gives every position of the grid exactly one cell.
pub proof fn lemma_row_major_covers_once(cells: Seq<Cell>, width: nat, height: nat)
    requires
        row_major(cells, width, height),
        width <= u8::MAX,
        height <= u8::MAX,
    ensures
        covers_once(cells, width, height),
{
    let w = width as int;
    let h = height as int;
    assert forall|i: int| 0 <= i < cells.len() implies (#[trigger] cells[i]).coords().0 < width
        && cells[i].coords().1 < height by {
        lemma_position_of_index(i, w, h);
    }
    assert forall|x: int, y: int| 0 <= x < width && 0 <= y < height implies #[trigger] has_cell_at(
        cells,
        x,
        y,
    ) by {
        lemma_index_of_position(x, y, w, h);
        let i = y * w + x;
        assert(cells[i].coords().0 == x && cells[i].coords().1 == y);
    }
    assert forall|i: int, j: int| 0 <= i < j < cells.len() implies (#[trigger] cells[i]).coords()
        != (#[trigger] cells[j]).coords() by {
        lemma_position_of_index(i, w, h);
        lemma_position_of_index(j, w, h);
    }
}

/// Whether one of `cells` is the point `(x, y)`.
pub fn contains_point(cells: &Vec<(u8, u8)>, x: u8, y: u8) -> (found: bool)
    ensures
        found == cells@.contains((x, y)),
        found == seeded_at(cells@, x as int, y as int),
{
    let mut i: usize = 0;
    while i < cells.len()
        invariant
            i <= cells.len(),
            forall|k: int| 0 <= k < i ==> cells@[k] != (x, y),
        decreases cells.len() - i,
    {
        if cells[i].0 == x && cells[i].1 == y {
            assert(cells@[i as int] == (x, y));
            return true;
        }
        i = i + 1;
    }
    proof {
        if seeded_at(cells@, x as int, y as int) {
            let k = choose|k: int|
                0 <= k < cells@.len() && (#[trigger] cells@[k]).0 == x && cells@[k].1 == y;
            assert(cells@[k] == (x, y));
        }
    }
    false
}

/// A bounded grid of cells.
pub struct Grid {
    /// The cells, row by row.
    grid: Vec<Cell>,
    width: u8,
    height: u8,
}

impl View for Grid {
    type V = Board;

    /// The grid as a board: its size and the positions whose cells are alive.
    closed spec fn view(&self) -> Board {
        Board {
            width: self.width as nat,
            height: self.height as nat,
            live: Set::new(
                |p: (int, int)|
                    0 <= p.0 < self.width && 0 <= p.1 < self.height && self.grid@[p.1 * self.width
                        + p.0].alive(),
            ),
        }
    }
}

impl Clone for Grid {
    fn clone(&self) -> (copy: Self)
        ensures
            copy@ == self@,
            copy.cells() == self.cells(),
    {
        proof {
            use_type_invariant(self);
        }
        let cells = self.grid.clone();
        proof {
            assert(cells@ =~= self.grid@);
        }
        Self { grid: cells, width: self.width, height: self.height }
    }
}

impl Grid {
    #[verifier::type_invariant]
    spec fn stored_row_major(&self) -> bool {
        row_major(self.grid@, self.width as nat, self.height as nat)
    }

    /// The cells in storage order.
    pub closed spec fn cells(&self) -> Seq<Cell> {
        self.grid@
    }

    /// Builds the grid of the given size on which exactly the cells named in
    /// `starting_cells` are alive. Points beyond the border are ignored.
    pub fn new(width: u8, height: u8, starting_cells: Vec<(u8, u8)>) -> (grid: Self)
        ensures
            grid@ == Board::seeded(width as nat, height as nat, starting_cells@),
            row_major(grid.cells(), width as nat, height as nat),
            covers_once(grid.cells(), width as nat, height as nat),
    {
        let mut cells: Vec<Cell> = Vec::new();
        let mut b: u8 = 0;
        while b < height
            invariant
                b <= height,
                cells@.len() == b * width,
                seeded_prefix(cells@, width as int, starting_cells@),
            decreases height - b,
        {
            let mut a: u8 = 0;
            while a < width
                invariant
                    a <= width,
                    b < height,
                    cells@.len() == b * width + a,
                    seeded_prefix(cells@, width as int, starting_cells@),
                decreases width - a,
            {
                proof {
                    lemma_index_of_position(a as int, b as int, width as int, height as int);
                }
                let cell = Cell::new(a, b, contains_point(&starting_cells, a, b));
                cells.push(cell);
                a = a + 1;
            }
            proof {
                assert(b * width + width == (b + 1) * width) by (nonlinear_arith);
            }
            b = b + 1;
        }
        proof {
            assert(height * width == width * height) by (nonlinear_arith);
        }
        let grid = Self { grid: cells, width, height };
        proof {
            lemma_row_major_covers_once(grid.grid@, width as nat, height as nat);
            let board = Board::seeded(width as nat, height as nat, starting_cells@);
            assert forall|p: (int, int)| grid@.live.contains(p) == board.live.contains(p) by {
                if 0 <= p.0 < width && 0 <= p.1 < height {
                    lemma_index_of_position(p.0, p.1, width as int, height as int);
                }
            }
            assert(grid@ =~= board);
        }
        grid
    }

    /// The cell at a position on the grid.
    fn cell_at(&self, x: u8, y: u8) -> (cell: &Cell)
        requires
            self@.contains(x as int, y as int),
        ensures
            cell.coords() == (x, y),
            cell.alive() == self@.alive(x as int, y as int),
    {
        proof {
            use_type_invariant(self);
            lemma_index_of_position(x as int, y as int, self.width as int, self.height as int);
        }
        assert(y * self.width <= 255 * 255) by (nonlinear_arith)
            requires
                0 <= y <= 255,
                self.width <= 255,
        ;
        let index = (y as usize) * (self.width as usize) + (x as usize);
        &self.grid[index]
    }

    /// The cell at `(x, y)`, or `None` if the position lies beyond the border.
    pub fn get_cell(&self, x: i16, y: i16) -> (found: Option<&Cell>)
        ensures
            found is Some <==> self@.contains(x as int, y as int),
            found matches Some(cell) ==> cell.coords() == (x as u8, y as u8) && cell.alive()
                == self@.alive(x as int, y as int),
    {
        if x < 0 || x >= self.width as i16 || y < 0 || y >= self.height as i16 {
            None
        } else {
            Some(self.cell_at(x as u8, y as u8))
        }
    }

    /// Renders the grid as text for display: one line per row, the highest row
    /// first, and for each cell its glyph followed by a space.
    pub fn print_grid(&self) -> (text: String)
        ensures
            text@ == self@.frame(),
    {
        let mut text = String::new();
        if self.width == 0 {
            return text;
        }
        let mut row: u8 = 0;
        while row < self.height
            invariant
                row <= self.height,
                text@ == self@.rows_text(row as nat),
            decreases self.height - row,
        {
            let y = self.height - 1 - row;
            let mut x: u8 = 0;
            while x < self.width
                invariant
                    x <= self.width,
                    row < self.height,
                    y == self.height - 1 - row,
                    text@ == self@.rows_text(row as nat) + self@.row_text(y as int, x as nat),
                decreases self.width - x,
            {
                let ghost before = text@;
                text.push(self.cell_at(x, y).glyph());
                text.push(' ');
                proof {
                    let glyph = glyph_of(self@.alive(x as int, y as int));
                    assert(text@ =~= before + seq![glyph, ' ']);
                    assert(text@ =~= self@.rows_text(row as nat) + (self@.row_text(
                        y as int,
                        x as nat,
                    ) + seq![glyph, ' ']));
                }
                x = x + 1;
            }
            text.push('\n');
            proof {
                assert(text@ =~= self@.rows_text(row as nat) + self@.row_text(
                    y as int,
                    self.width as nat,
                ) + seq!['\n']);
            }
            row = row + 1;
        }
        text
    }

    /// The eight neighbours of `(x, y)`, column by column; `None` stands for a
    /// position beyond the border.
    fn neighbours(&self, x: u8, y: u8) -> (around: Vec<Option<&Cell>>)
        ensures
            live_count(around@) == self@.live_neighbours(x as int, y as int),
    {
        let x = x as i16;
        let y = y as i16;
        let mut around: Vec<Option<&Cell>> = Vec::new();
        around.push(self.get_cell(x - 1, y - 1));
        around.push(self.get_cell(x - 1, y));
        around.push(self.get_cell(x - 1, y + 1));
        around.push(self.get_cell(x, y - 1));
        around.push(self.get_cell(x, y + 1));
        around.push(self.get_cell(x + 1, y - 1));
        around.push(self.get_cell(x + 1, y));
        around.push(self.get_cell(x + 1, y + 1));
        proof {
            lemma_live_count_of_eight(around@);
        }
        around
    }

    /// Advances the whole grid by one generation. Every cell is judged on the
    /// grid as it was before the call; no cell sees a neighbour's new state.
    pub fn step_forward(&mut self)
        ensures
            final(self)@ == old(self)@.next(),
            row_major(final(self).cells(), old(self)@.width, old(self)@.height),
            covers_once(final(self).cells(), old(self)@.width, old(self)@.height),
    {
        proof {
            use_type_invariant(&*self);
        }
        let mut next: Vec<Cell> = Vec::new();
        let mut i: usize = 0;
        while i < self.grid.len()
            invariant
                *self == *old(self),
                row_major(self.grid@, self.width as nat, self.height as nat),
                i <= self.grid@.len(),
                next@.len() == i,
                forall|k: int|
                    0 <= k < i ==> {
                        &&& (#[trigger] next@[k]).coords() == self.grid@[k].coords()
                        &&& next@[k].alive() == self@.alive_next(
                            k % (self.width as int),
                            k / (self.width as int),
                        )
                    },
            decreases self.grid@.len() - i,
        {
            let mut cell = self.grid[i];
            let (x, y) = cell.get_coords();
            proof {
                lemma_position_of_index(i as int, self.width as int, self.height as int);
            }
            let around = self.neighbours(x, y);
            cell.update_state(around);
            next.push(cell);
            i = i + 1;
        }
        proof {
            let before = self@;
            let after = Board {
                width: before.width,
                height: before.height,
                live: Set::new(
                    |p: (int, int)|
                        0 <= p.0 < self.width && 0 <= p.1 < self.height && next@[p.1 * self.width
                            + p.0].alive(),
                ),
            };
            assert forall|p: (int, int)| after.live.contains(p) == before.next().live.contains(
                p,
            ) by {
                if 0 <= p.0 < self.width && 0 <= p.1 < self.height {
                    lemma_index_of_position(p.0, p.1, self.width as int, self.height as int);
                }
            }
            assert(after =~= before.next());
            lemma_row_major_covers_once(next@, self.width as nat, self.height as nat);
        }
        self.grid = next;
    }
}

/// The live count of eight neighbours is the sum of what each adds.
proof fn lemma_live_count_of_eight(around: Seq<Option<&Cell>>)
    requires
        around.len() == 8,
    ensures
        live_count(around) == neighbour_value(around[0]) + neighbour_value(around[1])
            + neighbour_value(around[2]) + neighbour_value(around[3]) + neighbour_value(around[4])
            + neighbour_value(around[5]) + neighbour_value(around[6]) + neighbour_value(around[7]),
{
    let s7 = around.drop_last();
    let s6 = s7.drop_last();
    let s5 = s6.drop_last();
    let s4 = s5.drop_last();
    let s3 = s4.drop_last();
    let s2 = s3.drop_last();
    let s1 = s2.drop_last();
    let s0 = s1.drop_last();
    assert(live_count(s0) == 0);
    assert(live_count(s1) == live_count(s0) + neighbour_value(s1.last()));
    assert(live_count(s2) == live_count(s1) + neighbour_value(s2.last()));
    assert(live_count(s3) == live_count(s2) + neighbour_value(s3.last()));
    assert(live_count(s4) == live_count(s3) + neighbour_value(s4.last()));
    assert(live_count(s5) == live_count(s4) + neighbour_value(s5.last()));
    assert(live_count(s6) == live_count(s5) + neighbour_value(s6.last()));
    assert(live_count(s7) == live_count(s6) + neighbour_value(s7.last()));
}

/// The cells stored so far sit at the positions their indices name, and each is
/// alive exactly if a seed names its position.
spec fn seeded_prefix(cells: Seq<Cell>, width: int, seeds: Seq<(u8, u8)>) -> bool {
    forall|i: int|
        0 <= i < cells.len() ==> {
            &&& (#[trigger] cells[i]).coords().0 == i % width
            &&& cells[i].coords().1 == i / width
            &&& cells[i].alive() == seeded_at(seeds, i % width, i / width)
        }
}

} // verus!
