//! What holds of every board and every generation.

use crate::board::Board;
use crate::cell::{glyph_of, lives_next};
use vstd::prelude::*;

verus! {

/// The rule as a table: a dead cell with exactly three live neighbours becomes
/// alive, a live cell with two or three stays alive, and every other cell is
/// dead in the next generation.
pub proof fn lemma_rule_table(alive: bool, live_neighbours: nat)
    ensures
        !alive && live_neighbours == 3 ==> lives_next(alive, live_neighbours),
        alive && (live_neighbours == 2 || live_neighbours == 3) ==> lives_next(
            alive,
            live_neighbours,
        ),
        !(!alive && live_neighbours == 3) && !(alive && (live_neighbours == 2 || live_neighbours
            == 3)) ==> !lives_next(alive, live_neighbours),
{
}

/// A position beyond the border is never alive and adds nothing to a live
/// count, whatever the set of live positions holds.
pub proof fn lemma_outside_is_dead(board: Board, x: int, y: int)
    requires
        !board.contains(x, y),
    ensures
        !board.alive(x, y),
        board.bit(x, y) == 0,
        !board.next().alive(x, y),
{
}

/// A position has at most eight live neighbours.
pub proof fn lemma_at_most_eight_neighbours(board: Board, x: int, y: int)
    ensures
        board.live_neighbours(x, y) <= 8,
{
}

/// The corner `(0, 0)` has three neighbours on the board: the live count there
/// is made up of `(1, 0)`, `(0, 1)` and `(1, 1)` alone.
pub proof fn lemma_corner_neighbours(board: Board)
    ensures
        board.live_neighbours(0, 0) == board.bit(1, 0) + board.bit(0, 1) + board.bit(1, 1),
        board.live_neighbours(0, 0) <= 3,
{
}

/// Cells do not neighbour across opposite edges: on the left edge nothing in
/// the column to the left counts, whatever lives on the right edge.
pub proof fn lemma_no_wraparound(board: Board, y: int)
    ensures
        board.live_neighbours(0, y) == board.bit(0, y - 1) + board.bit(0, y + 1) + board.bit(
            1,
            y - 1,
        ) + board.bit(1, y) + board.bit(1, y + 1),
{
}

/// A generation changes neither the size of the board nor lets anything live
/// beyond the border, and what it yields follows the rule from the board it
/// started on.
pub proof fn lemma_next_keeps_shape(board: Board)
    ensures
        board.next().width == board.width,
        board.next().height == board.height,
        board.next().well_formed(),
        board.next().follows(board),
{
}

/// A seeded board has nothing alive beyond the border, and on the board
/// exactly the seeded positions are alive.
pub proof fn lemma_seeded_board(width: nat, height: nat, seeds: Seq<(u8, u8)>, x: u8, y: u8)
    ensures
        Board::seeded(width, height, seeds).well_formed(),
        Board::seeded(width, height, seeds).alive(x as int, y as int) <==> x < width && y < height
            && seeds.contains((x, y)),
{
    let board = Board::seeded(width, height, seeds);
    if board.alive(x as int, y as int) {
        let i = choose|i: int|
            0 <= i < seeds.len() && (#[trigger] seeds[i]).0 == x && seeds[i].1 == y;
        assert(seeds[i] == (x, y));
    }
    if x < width && y < height && seeds.contains((x, y)) {
        let i = choose|i: int| 0 <= i < seeds.len() && seeds[i] == (x, y);
        assert(seeds[i].0 == x && seeds[i].1 == y);
    }
}

/// The next generation is determined by the current one: two boards that both
/// follow the rule from the same board are the same board.
pub proof fn lemma_generation_is_determined(before: Board, first: Board, second: Board)
    requires
        first.follows(before),
        second.follows(before),
    ensures
        first == second,
        first == before.next(),
{
    assert forall|p: (int, int)| first.live.contains(p) == before.next().live.contains(p) by {
        assert(first.alive(p.0, p.1) == before.alive_next(p.0, p.1));
    }
    assert forall|p: (int, int)| second.live.contains(p) == before.next().live.contains(p) by {
        assert(second.alive(p.0, p.1) == before.alive_next(p.0, p.1));
    }
    assert(first =~= before.next());
    assert(second =~= before.next());
}

/// The next state of a position depends on the position and its eight
/// neighbours alone: boards of one size that agree there agree on the
/// position one generation later.
pub proof fn lemma_generation_is_local(first: Board, second: Board, x: int, y: int)
    requires
        first.width == second.width,
        first.height == second.height,
        forall|a: int, b: int|
            x - 1 <= a <= x + 1 && y - 1 <= b <= y + 1 ==> #[trigger] first.alive(a, b)
                == second.alive(a, b),
    ensures
        first.next().alive(x, y) == second.next().alive(x, y),
{
}

/// What a sweep has made of one position: its next state on the snapshot if
/// the sweep has visited it, else what it was.
proof fn lemma_swept_position(board: Board, snapshot: Board, order: Seq<(int, int)>, p: (int, int))
    ensures
        board.swept(snapshot, order).width == board.width,
        board.swept(snapshot, order).height == board.height,
        board.swept(snapshot, order).live.contains(p) == if order.contains(p) {
            snapshot.alive_next(p.0, p.1)
        } else {
            board.live.contains(p)
        },
    decreases order.len(),
{
    if order.len() > 0 {
        let earlier = order.drop_last();
        lemma_swept_position(board, snapshot, earlier, p);
        if order.contains(p) {
            let i = choose|i: int| 0 <= i < order.len() && order[i] == p;
            if i < order.len() - 1 {
                assert(earlier[i] == p);
            }
        }
        if earlier.contains(p) {
            let i = choose|i: int| 0 <= i < earlier.len() && earlier[i] == p;
            assert(order[i] == p);
        }
    }
}

/// The order in which the positions are updated does not matter as long as
/// every update reads the board as it was: a sweep that visits every position
/// of the board, in any order and however often, ends in the next generation.
pub proof fn lemma_update_order_is_irrelevant(board: Board, order: Seq<(int, int)>)
    requires
        board.well_formed(),
        forall|x: int, y: int| board.contains(x, y) ==> order.contains((x, y)),
    ensures
        board.swept(board, order) == board.next(),
{
    let swept = board.swept(board, order);
    assert forall|p: (int, int)| swept.live.contains(p) == board.next().live.contains(p) by {
        lemma_swept_position(board, board, order, p);
        if !order.contains(p) {
            assert(!board.contains(p.0, p.1));
        }
    }
    lemma_swept_position(board, board, order, (0, 0));
    assert(swept =~= board.next());
}

/// The text of a row holds two characters for each position: its glyph and a
/// space.
pub proof fn lemma_row_text_layout(board: Board, y: int, cells: nat, x: int)
    requires
        0 <= x < cells,
    ensures
        board.row_text(y, cells).len() == 2 * cells,
        board.row_text(y, cells)[2 * x] == glyph_of(board.alive(x, y)),
        board.row_text(y, cells)[2 * x + 1] == ' ',
    decreases cells,
{
    lemma_row_text_len(board, y, (cells - 1) as nat);
    if x < cells - 1 {
        lemma_row_text_layout(board, y, (cells - 1) as nat, x);
    }
}

proof fn lemma_row_text_len(board: Board, y: int, cells: nat)
    ensures
        board.row_text(y, cells).len() == 2 * cells,
    decreases cells,
{
    if cells > 0 {
        lemma_row_text_len(board, y, (cells - 1) as nat);
    }
}

proof fn lemma_rows_text_len(board: Board, rows: nat)
    ensures
        board.rows_text(rows).len() == rows * (2 * board.width + 1),
    decreases rows,
{
    if rows > 0 {
        lemma_rows_text_len(board, (rows - 1) as nat);
        lemma_row_text_len(board, board.height - rows, board.width);
        assert((rows - 1) * (2 * board.width + 1) + 2 * board.width + 1 == rows * (2 * board.width
            + 1)) by (nonlinear_arith);
    } else {
        assert(rows * (2 * board.width + 1) == 0) by (nonlinear_arith)
            requires
                rows == 0,
        ;
    }
}

proof fn lemma_rows_text_layout(board: Board, rows: nat, x: int, y: int)
    requires
        0 <= x < board.width,
        board.height - rows <= y < board.height,
    ensures
        ({
            let line = 2 * board.width + 1;
            let start = (board.height - 1 - y) * line;
            &&& 0 <= start
            &&& start + line <= board.rows_text(rows).len()
            &&& board.rows_text(rows)[start + 2 * x] == glyph_of(board.alive(x, y))
            &&& board.rows_text(rows)[start + 2 * x + 1] == ' '
            &&& board.rows_text(rows)[start + 2 * board.width] == '\n'
        }),
    decreases rows,
{
    let line = 2 * board.width + 1;
    let start = (board.height - 1 - y) * line;
    let above = board.rows_text((rows - 1) as nat);
    let row = board.row_text(board.height - rows, board.width);
    lemma_rows_text_len(board, (rows - 1) as nat);
    lemma_rows_text_len(board, rows);
    lemma_row_text_len(board, board.height - rows, board.width);
    assert(board.rows_text(rows) == above + row + seq!['\n']);
    if y == board.height - rows {
        assert(start == above.len());
        lemma_row_text_layout(board, y, board.width, x);
        assert(board.rows_text(rows)[start + 2 * x] == row[2 * x]);
        assert(board.rows_text(rows)[start + 2 * x + 1] == row[2 * x + 1]);
    } else {
        lemma_rows_text_layout(board, (rows - 1) as nat, x, y);
        assert(0 <= start && start + line <= (rows - 1) * line) by (nonlinear_arith)
            requires
                start == (board.height - 1 - y) * line,
                board.height - rows < y < board.height,
                line > 0,
        ;
        assert(board.rows_text(rows)[start + 2 * x] == above[start + 2 * x]);
        assert(board.rows_text(rows)[start + 2 * x + 1] == above[start + 2 * x + 1]);
        assert(board.rows_text(rows)[start + 2 * board.width] == above[start + 2 * board.width]);
    }
}

/// Where a cell stands in the frame. A board with cells is rendered as one
/// line for each row, the highest row first; every line holds, for each column
/// from left to right, the cell's glyph and a space, and ends in a line feed.
/// So every cell is shown exactly once.
pub proof fn lemma_frame_layout(board: Board, x: int, y: int)
    requires
        board.contains(x, y),
    ensures
        ({
            let line = 2 * board.width + 1;
            let start = (board.height - 1 - y) * line;
            &&& board.frame().len() == board.height * line
            &&& 0 <= start
            &&& start + line <= board.frame().len()
            &&& board.frame()[start + 2 * x] == glyph_of(board.alive(x, y))
            &&& board.frame()[start + 2 * x + 1] == ' '
            &&& board.frame()[start + 2 * board.width] == '\n'
        }),
{
    lemma_rows_text_len(board, board.height);
    lemma_rows_text_layout(board, board.height, x, y);
}

/// A board without cells has no text.
pub proof fn lemma_frame_of_nothing(board: Board)
    requires
        board.width == 0 || board.height == 0,
    ensures
        board.frame() == Seq::<char>::empty(),
{
}

/// A board without live cells stays without live cells through any number of
/// generations, whatever its size.
pub proof fn lemma_empty_board_stays_empty(width: nat, height: nat, generations: nat)
    ensures
        Board::seeded(width, height, Seq::empty()) == Board::empty(width, height),
        Board::empty(width, height).advance(generations) == Board::empty(width, height),
    decreases generations,
{
    let empty = Board::empty(width, height);
    assert(Board::seeded(width, height, Seq::empty()) =~= empty);
    if generations > 0 {
        lemma_empty_board_stays_empty(width, height, (generations - 1) as nat);
        assert(empty.next() =~= empty);
    }
}

/// A single live cell dies of loneliness: a board with one live position has
/// none a generation later.
pub proof fn lemma_lone_cell_dies(board: Board, x: int, y: int)
    requires
        board.live == set![(x, y)],
    ensures
        board.next() == Board::empty(board.width, board.height),
{
    assert forall|p: (int, int)| !board.next().live.contains(p) by {
        lemma_few_neighbours_in_singleton(board, x, y, p.0, p.1);
    }
    assert(board.next() =~= Board::empty(board.width, board.height));
}

proof fn lemma_few_neighbours_in_singleton(board: Board, x: int, y: int, px: int, py: int)
    requires
        board.live == set![(x, y)],
    ensures
        board.live_neighbours(px, py) <= 1,
        px == x && py == y ==> board.live_neighbours(px, py) == 0,
{
}

/// The two by two block is a still life: a board whose live cells are exactly
/// a block that lies on the board is unchanged by any number of generations.
pub proof fn lemma_block_is_still(board: Board, x: int, y: int, generations: nat)
    requires
        board.live == set![(x, y), (x + 1, y), (x, y + 1), (x + 1, y + 1)],
        board.contains(x, y),
        board.contains(x + 1, y + 1),
    ensures
        board.advance(generations) == board,
    decreases generations,
{
    if generations > 0 {
        lemma_block_is_still(board, x, y, (generations - 1) as nat);
        assert forall|p: (int, int)| board.next().live.contains(p) == board.live.contains(p) by {
            lemma_block_neighbours(board, x, y, p.0, p.1);
        }
        assert(board.next() =~= board);
    }
}

proof fn lemma_block_neighbours(board: Board, x: int, y: int, px: int, py: int)
    requires
        board.live == set![(x, y), (x + 1, y), (x, y + 1), (x + 1, y + 1)],
        board.contains(x, y),
        board.contains(x + 1, y + 1),
    ensures
        board.live.contains((px, py)) ==> board.contains(px, py) && board.live_neighbours(px, py)
            == 3,
        !board.live.contains((px, py)) ==> board.live_neighbours(px, py) <= 2,
{
}

} // verus!
