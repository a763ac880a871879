//! The mathematical model of a grid: its size and the set of live positions.
//!
//! Everything the executable types promise is stated over [`Board`]. The model
//! knows nothing of how cells are stored; a position is a pair of integers,
//! column first.

use crate::cell::{glyph_of, lives_next};
use vstd::prelude::*;

verus! {

/// A bounded grid as a value: `width` columns, `height` rows, and the positions
/// that are alive.
#[verifier::ext_equal]
pub struct Board {
    pub width: nat,
    pub height: nat,
    pub live: Set<(int, int)>,
}

/// Whether some seed names the position `(x, y)`.
pub open spec fn seeded_at(seeds: Seq<(u8, u8)>, x: int, y: int) -> bool {
    exists|i: int| 0 <= i < seeds.len() && (#[trigger] seeds[i]).0 == x && seeds[i].1 == y
}

impl Board {
    /// Whether `(x, y)` lies on the board.
    pub open spec fn contains(self, x: int, y: int) -> bool {
        0 <= x < self.width && 0 <= y < self.height
    }

    /// Whether `(x, y)` is a live position. Nothing beyond the border is alive.
    pub open spec fn alive(self, x: int, y: int) -> bool {
        self.contains(x, y) && self.live.contains((x, y))
    }

    /// One for a live position, zero for a dead or a missing one.
    pub open spec fn bit(self, x: int, y: int) -> nat {
        if self.alive(x, y) {
            1
        } else {
            0
        }
    }

    /// The number of live positions among the eight that surround `(x, y)`.
    pub open spec fn live_neighbours(self, x: int, y: int) -> nat {
        self.bit(x - 1, y - 1) + self.bit(x - 1, y) + self.bit(x - 1, y + 1)
            + self.bit(x, y - 1) + self.bit(x, y + 1)
            + self.bit(x + 1, y - 1) + self.bit(x + 1, y) + self.bit(x + 1, y + 1)
    }

    /// Every live position lies on the board.
    pub open spec fn well_formed(self) -> bool {
        forall|p: (int, int)| self.live.contains(p) ==> self.contains(p.0, p.1)
    }

    /// Whether `(x, y)` is alive one generation later.
    pub open spec fn alive_next(self, x: int, y: int) -> bool {
        self.contains(x, y) && lives_next(self.alive(x, y), self.live_neighbours(x, y))
    }

    /// The board one generation later: every position judged by the rule on
    /// this board, all at once.
    pub open spec fn next(self) -> Board {
        Board {
            width: self.width,
            height: self.height,
            live: Set::new(|p: (int, int)| self.alive_next(p.0, p.1)),
        }
    }

    /// The board `generations` steps later.
    pub open spec fn advance(self, generations: nat) -> Board
        decreases generations,
    {
        if generations == 0 {
            self
        } else {
            self.advance((generations - 1) as nat).next()
        }
    }

    /// The board of the given size without a live cell.
    pub open spec fn empty(width: nat, height: nat) -> Board {
        Board { width, height, live: Set::empty() }
    }

    /// Whether this board is what the rule makes of `before`: the same size,
    /// nothing alive beyond the border, and every position on the board alive
    /// exactly if the rule says so of `before`.
    pub open spec fn follows(self, before: Board) -> bool {
        &&& self.width == before.width
        &&& self.height == before.height
        &&& self.well_formed()
        &&& forall|x: int, y: int|
            before.contains(x, y) ==> (#[trigger] self.alive(x, y)) == lives_next(
                before.alive(x, y),
                before.live_neighbours(x, y),
            )
    }

    /// This board after the positions in `order` have been updated one after
    /// another, each to the state that the rule gives it on `snapshot`.
    pub open spec fn swept(self, snapshot: Board, order: Seq<(int, int)>) -> Board
        decreases order.len(),
    {
        if order.len() == 0 {
            self
        } else {
            let done = self.swept(snapshot, order.drop_last());
            let p = order.last();
            Board {
                width: done.width,
                height: done.height,
                live: if snapshot.alive_next(p.0, p.1) {
                    done.live.insert(p)
                } else {
                    done.live.remove(p)
                },
            }
        }
    }

    /// The text of the first `cells` positions of row `y`, left to right: for
    /// each position its glyph and a space.
    pub open spec fn row_text(self, y: int, cells: nat) -> Seq<char>
        decreases cells,
    {
        if cells == 0 {
            Seq::empty()
        } else {
            self.row_text(y, (cells - 1) as nat) + seq![glyph_of(self.alive(cells - 1, y)), ' ']
        }
    }

    /// The text of the topmost `rows` rows, highest row first, each ended by a
    /// line feed.
    pub open spec fn rows_text(self, rows: nat) -> Seq<char>
        decreases rows,
    {
        if rows == 0 {
            Seq::empty()
        } else {
            self.rows_text((rows - 1) as nat) + self.row_text(self.height - rows, self.width)
                + seq!['\n']
        }
    }

    /// The board as text: one line per row, the highest row first, and within a
    /// row the columns from left to right. A board without columns has no
    /// text.
    pub open spec fn frame(self) -> Seq<char> {
        if self.width == 0 {
            Seq::empty()
        } else {
            self.rows_text(self.height)
        }
    }

    /// The board of the given size on which exactly the seeded positions are
    /// alive. Seeds beyond the border have no effect.
    pub open spec fn seeded(width: nat, height: nat, seeds: Seq<(u8, u8)>) -> Board {
        Board {
            width,
            height,
            live: Set::new(
                |p: (int, int)| 0 <= p.0 < width && 0 <= p.1 < height && seeded_at(seeds, p.0, p.1),
            ),
        }
    }
}

} // verus!
