//! The game engine: a grid of cells (row 0 on top), gravity placement into
//! 1-indexed columns, and detection of a winning run of `num_to_connect`
//! equal symbols along a row, a column or either diagonal.

use crate::config::{distinct_chars, no_blank};
use vstd::prelude::*;

verus! {

/// Errors reported by `place`. A rejected placement never mutates the board.
#[derive(Clone, Copy, Debug, PartialEq, Eq, Structural)]
pub enum PlacementError {
    /// The chosen column lies outside `[1, cols]`.
    ColumnOutOfRange,
    /// The topmost cell of the chosen column is already occupied.
    ColumnFull,
}

/// The mathematical state of a match: the grid of cells with row 0 on top
/// (a space is an empty cell), the players in turn order, the connect-length,
/// the recorded winning line, and the number of cells still empty.
pub ghost struct GameView {
    pub grid: Seq<Seq<char>>,
    pub players: Seq<char>,
    pub connect: nat,
    pub rows: nat,
    pub cols: nat,
    pub winning: Seq<(usize, usize)>,
    pub remaining: nat,
}

/// `g` is a `rows`-by-`cols` rectangle.
pub open spec fn grid_rect(g: Seq<Seq<char>>, rows: int, cols: int) -> bool {
    &&& g.len() == rows
    &&& forall|i: int| 0 <= i < g.len() ==> (#[trigger] g[i]).len() == cols
}

/// The number of empty cells in one row.
pub open spec fn row_empties(row: Seq<char>) -> nat
    decreases row.len(),
{
    if row.len() == 0 {
        0
    } else {
        row_empties(row.drop_last()) + if row.last() == ' ' {
            1nat
        } else {
            0nat
        }
    }
}

/// The number of empty cells in the whole grid.
pub open spec fn grid_empties(g: Seq<Seq<char>>) -> nat
    decreases g.len(),
{
    if g.len() == 0 {
        0
    } else {
        grid_empties(g.drop_last()) + row_empties(g.last())
    }
}

/// Cell `i` of a horizontal run that starts at (row, col).
pub open spec fn horiz_cell(g: Seq<Seq<char>>, row: int, col: int, i: int) -> char {
    g[row][col + i]
}

/// Cell `i` of a vertical run that starts at (row, col).
pub open spec fn vert_cell(g: Seq<Seq<char>>, row: int, col: int, i: int) -> char {
    g[row + i][col]
}

/// Cell `i` of a down-right diagonal run that starts at (row, col).
pub open spec fn down_right_cell(g: Seq<Seq<char>>, row: int, col: int, i: int) -> char {
    g[row + i][col + i]
}

/// Cell `i` of a down-left diagonal run that starts at (row, col).
pub open spec fn down_left_cell(g: Seq<Seq<char>>, row: int, col: int, i: int) -> char {
    g[row + i][col - i]
}

/// `n` consecutive cells of `p`, rightwards from (row, col).
pub open spec fn horiz_run(g: Seq<Seq<char>>, p: char, row: int, col: int, n: int) -> bool {
    forall|i: int| 0 <= i < n ==> #[trigger] horiz_cell(g, row, col, i) == p
}

/// `n` consecutive cells of `p`, downwards from (row, col).
pub open spec fn vert_run(g: Seq<Seq<char>>, p: char, row: int, col: int, n: int) -> bool {
    forall|i: int| 0 <= i < n ==> #[trigger] vert_cell(g, row, col, i) == p
}

/// `n` consecutive cells of `p`, down and rightwards from (row, col).
pub open spec fn down_right_run(g: Seq<Seq<char>>, p: char, row: int, col: int, n: int) -> bool {
    forall|i: int| 0 <= i < n ==> #[trigger] down_right_cell(g, row, col, i) == p
}

/// `n` consecutive cells of `p`, down and leftwards from (row, col).
pub open spec fn down_left_run(g: Seq<Seq<char>>, p: char, row: int, col: int, n: int) -> bool {
    forall|i: int| 0 <= i < n ==> #[trigger] down_left_cell(g, row, col, i) == p
}

/// (row, col) can start a horizontal run of length `n` on a rows-by-cols grid.
pub open spec fn horiz_start(rows: int, cols: int, n: int, row: int, col: int) -> bool {
    0 <= row < rows && 0 <= col && col + n <= cols
}

/// (row, col) can start a vertical run of length `n` on a rows-by-cols grid.
pub open spec fn vert_start(rows: int, cols: int, n: int, row: int, col: int) -> bool {
    0 <= col < cols && 0 <= row && row + n <= rows
}

/// (row, col) can start a down-right run of length `n` on a rows-by-cols grid.
pub open spec fn down_right_start(rows: int, cols: int, n: int, row: int, col: int) -> bool {
    0 <= row && row + n <= rows && 0 <= col && col + n <= cols
}

/// (row, col) can start a down-left run of length `n` on a rows-by-cols grid.
pub open spec fn down_left_start(rows: int, cols: int, n: int, row: int, col: int) -> bool {
    0 <= row && row + n <= rows && n - 1 <= col < cols
}

/// Somewhere on the grid, `n` consecutive cells of `p` line up in one of the
/// four directions.
pub open spec fn has_win(g: Seq<Seq<char>>, rows: int, cols: int, n: int, p: char) -> bool {
    ||| exists|row: int, col: int|
        horiz_start(rows, cols, n, row, col) && #[trigger] horiz_run(g, p, row, col, n)
    ||| exists|row: int, col: int|
        vert_start(rows, cols, n, row, col) && #[trigger] vert_run(g, p, row, col, n)
    ||| exists|row: int, col: int|
        down_right_start(rows, cols, n, row, col) && #[trigger] down_right_run(g, p, row, col, n)
    ||| exists|row: int, col: int|
        down_left_start(rows, cols, n, row, col) && #[trigger] down_left_run(g, p, row, col, n)
}

/// `w` lists, top cell first, the `n` coordinates of the horizontal run that
/// starts at (row, col).
pub open spec fn horiz_line(w: Seq<(usize, usize)>, row: int, col: int, n: int) -> bool {
    &&& w.len() == n
    &&& forall|i: int|
        0 <= i < n ==> (#[trigger] w[i]).0 as int == row && w[i].1 as int == col + i
}

/// `w` lists the `n` coordinates of the vertical run that starts at (row, col).
pub open spec fn vert_line(w: Seq<(usize, usize)>, row: int, col: int, n: int) -> bool {
    &&& w.len() == n
    &&& forall|i: int|
        0 <= i < n ==> (#[trigger] w[i]).0 as int == row + i && w[i].1 as int == col
}

/// `w` lists the `n` coordinates of the down-right run that starts at (row, col).
pub open spec fn down_right_line(w: Seq<(usize, usize)>, row: int, col: int, n: int) -> bool {
    &&& w.len() == n
    &&& forall|i: int|
        0 <= i < n ==> (#[trigger] w[i]).0 as int == row + i && w[i].1 as int == col + i
}

/// `w` lists the `n` coordinates of the down-left run that starts at (row, col).
pub open spec fn down_left_line(w: Seq<(usize, usize)>, row: int, col: int, n: int) -> bool {
    &&& w.len() == n
    &&& forall|i: int|
        0 <= i < n ==> (#[trigger] w[i]).0 as int == row + i && w[i].1 as int == col - i
}

/// `w` records exactly the `n` coordinates of one run of `p` on `g`: all its
/// cells hold `p` and they are contiguous in one of the four directions.
pub open spec fn is_winning_line(
    g: Seq<Seq<char>>,
    rows: int,
    cols: int,
    n: int,
    p: char,
    w: Seq<(usize, usize)>,
) -> bool {
    ||| exists|row: int, col: int|
        horiz_start(rows, cols, n, row, col) && horiz_run(g, p, row, col, n) && #[trigger] horiz_line(
            w,
            row,
            col,
            n,
        )
    ||| exists|row: int, col: int|
        vert_start(rows, cols, n, row, col) && vert_run(g, p, row, col, n) && #[trigger] vert_line(
            w,
            row,
            col,
            n,
        )
    ||| exists|row: int, col: int|
        down_right_start(rows, cols, n, row, col) && down_right_run(g, p, row, col, n)
            && #[trigger] down_right_line(w, row, col, n)
    ||| exists|row: int, col: int|
        down_left_start(rows, cols, n, row, col) && down_left_run(g, p, row, col, n)
            && #[trigger] down_left_line(w, row, col, n)
}

/// `w` records the first run of `p` that the scan meets: directions are
/// tried in the order rows, columns, down-right, down-left, and within one
/// direction the starting points in row-major order.
pub open spec fn is_first_winning_line(
    g: Seq<Seq<char>>,
    rows: int,
    cols: int,
    n: int,
    p: char,
    w: Seq<(usize, usize)>,
) -> bool {
    ||| exists|row: int, col: int|
        horiz_start(rows, cols, n, row, col) && horiz_run(g, p, row, col, n) && no_horiz_upto(
            g,
            rows,
            cols,
            n,
            p,
            row,
            col,
        ) && #[trigger] horiz_line(w, row, col, n)
    ||| exists|row: int, col: int|
        vert_start(rows, cols, n, row, col) && vert_run(g, p, row, col, n) && no_horiz_win(
            g,
            rows,
            cols,
            n,
            p,
        ) && no_vert_upto(g, rows, cols, n, p, row, col) && #[trigger] vert_line(w, row, col, n)
    ||| exists|row: int, col: int|
        down_right_start(rows, cols, n, row, col) && down_right_run(g, p, row, col, n)
            && no_horiz_win(g, rows, cols, n, p) && no_vert_win(g, rows, cols, n, p)
            && no_down_right_upto(g, rows, cols, n, p, row, col) && #[trigger] down_right_line(
            w,
            row,
            col,
            n,
        )
    ||| exists|row: int, col: int|
        down_left_start(rows, cols, n, row, col) && down_left_run(g, p, row, col, n)
            && no_horiz_win(g, rows, cols, n, p) && no_vert_win(g, rows, cols, n, p)
            && no_down_right_win(g, rows, cols, n, p) && no_down_left_upto(
            g,
            rows,
            cols,
            n,
            p,
            row,
            col,
        ) && #[trigger] down_left_line(w, row, col, n)
}

/// (row, col) comes strictly before (lim_row, lim_col) in row-major order.
pub open spec fn lex_before(row: int, col: int, lim_row: int, lim_col: int) -> bool {
    row < lim_row || (row == lim_row && col < lim_col)
}

/// No horizontal run of `p` starts before (lr, lc) in row-major order.
pub open spec fn no_horiz_upto(
    g: Seq<Seq<char>>,
    rows: int,
    cols: int,
    n: int,
    p: char,
    lr: int,
    lc: int,
) -> bool {
    forall|row: int, col: int|
        horiz_start(rows, cols, n, row, col) && lex_before(row, col, lr, lc) ==> !(
        #[trigger] horiz_run(g, p, row, col, n))
}

/// No vertical run of `p` starts before (lr, lc) in row-major order.
pub open spec fn no_vert_upto(
    g: Seq<Seq<char>>,
    rows: int,
    cols: int,
    n: int,
    p: char,
    lr: int,
    lc: int,
) -> bool {
    forall|row: int, col: int|
        vert_start(rows, cols, n, row, col) && lex_before(row, col, lr, lc) ==> !(
        #[trigger] vert_run(g, p, row, col, n))
}

/// No down-right run of `p` starts before (lr, lc) in row-major order.
pub open spec fn no_down_right_upto(
    g: Seq<Seq<char>>,
    rows: int,
    cols: int,
    n: int,
    p: char,
    lr: int,
    lc: int,
) -> bool {
    forall|row: int, col: int|
        down_right_start(rows, cols, n, row, col) && lex_before(row, col, lr, lc) ==> !(
        #[trigger] down_right_run(g, p, row, col, n))
}

/// No down-left run of `p` starts before (lr, lc) in row-major order.
pub open spec fn no_down_left_upto(
    g: Seq<Seq<char>>,
    rows: int,
    cols: int,
    n: int,
    p: char,
    lr: int,
    lc: int,
) -> bool {
    forall|row: int, col: int|
        down_left_start(rows, cols, n, row, col) && lex_before(row, col, lr, lc) ==> !(
        #[trigger] down_left_run(g, p, row, col, n))
}

/// No horizontal run of `p` starts anywhere on the grid.
pub open spec fn no_horiz_win(g: Seq<Seq<char>>, rows: int, cols: int, n: int, p: char) -> bool {
    forall|row: int, col: int|
        horiz_start(rows, cols, n, row, col) ==> !(#[trigger] horiz_run(g, p, row, col, n))
}

/// No vertical run of `p` starts anywhere on the grid.
pub open spec fn no_vert_win(g: Seq<Seq<char>>, rows: int, cols: int, n: int, p: char) -> bool {
    forall|row: int, col: int|
        vert_start(rows, cols, n, row, col) ==> !(#[trigger] vert_run(g, p, row, col, n))
}

/// No down-right run of `p` starts anywhere on the grid.
pub open spec fn no_down_right_win(g: Seq<Seq<char>>, rows: int, cols: int, n: int, p: char) -> bool {
    forall|row: int, col: int|
        down_right_start(rows, cols, n, row, col) ==> !(#[trigger] down_right_run(
            g,
            p,
            row,
            col,
            n,
        ))
}

/// No down-left run of `p` starts anywhere on the grid.
pub open spec fn no_down_left_win(g: Seq<Seq<char>>, rows: int, cols: int, n: int, p: char) -> bool {
    forall|row: int, col: int|
        down_left_start(rows, cols, n, row, col) ==> !(#[trigger] down_left_run(g, p, row, col, n))
}

/// The four directions a winning run may take, in the order they are scanned.
#[derive(Clone, Copy, Debug)]
enum Direction {
    /// Left to right within one row.
    Horizontal,
    /// Top to bottom within one column.
    Vertical,
    /// Downwards and to the right.
    DownRight,
    /// Downwards and to the left.
    DownLeft,
}

/// A run of `n` cells of `p` in direction `d` starts at (row, col).
spec fn found_at(
    g: Seq<Seq<char>>,
    rows: int,
    cols: int,
    n: int,
    p: char,
    d: Direction,
    row: int,
    col: int,
) -> bool {
    match d {
        Direction::Horizontal => horiz_start(rows, cols, n, row, col) && horiz_run(
            g,
            p,
            row,
            col,
            n,
        ),
        Direction::Vertical => vert_start(rows, cols, n, row, col) && vert_run(g, p, row, col, n),
        Direction::DownRight => down_right_start(rows, cols, n, row, col) && down_right_run(
            g,
            p,
            row,
            col,
            n,
        ),
        Direction::DownLeft => down_left_start(rows, cols, n, row, col) && down_left_run(
            g,
            p,
            row,
            col,
            n,
        ),
    }
}

/// No run of `p` starts at a point the scan visits before (row, col) of
/// direction `d`: directions are tried in the order rows, columns,
/// down-right, down-left, and within one direction the starting points in
/// row-major order.
spec fn none_earlier(
    g: Seq<Seq<char>>,
    rows: int,
    cols: int,
    n: int,
    p: char,
    d: Direction,
    row: int,
    col: int,
) -> bool {
    match d {
        Direction::Horizontal => no_horiz_upto(g, rows, cols, n, p, row, col),
        Direction::Vertical => no_horiz_win(g, rows, cols, n, p) && no_vert_upto(
            g,
            rows,
            cols,
            n,
            p,
            row,
            col,
        ),
        Direction::DownRight => no_horiz_win(g, rows, cols, n, p) && no_vert_win(
            g,
            rows,
            cols,
            n,
            p,
        ) && no_down_right_upto(g, rows, cols, n, p, row, col),
        Direction::DownLeft => no_horiz_win(g, rows, cols, n, p) && no_vert_win(g, rows, cols, n, p)
            && no_down_right_win(g, rows, cols, n, p) && no_down_left_upto(
            g,
            rows,
            cols,
            n,
            p,
            row,
            col,
        ),
    }
}

/// `r` is the lowest empty cell of column `col`: it is empty and every cell
/// below it is occupied.
pub open spec fn is_landing(g: Seq<Seq<char>>, col: int, r: int) -> bool {
    &&& 0 <= r < g.len()
    &&& g[r][col] == ' '
    &&& forall|r2: int| r < r2 < g.len() ==> (#[trigger] g[r2][col]) != ' '
}

/// `g` with cell (r, c) replaced by `p`.
pub open spec fn grid_update(g: Seq<Seq<char>>, r: int, c: int, p: char) -> Seq<Seq<char>> {
    g.update(r, g[r].update(c, p))
}

/// A match in progress: the board, the players in turn order, the rules the
/// match was configured with, the line that won (empty while the game goes
/// on) and the count of cells still empty.
pub struct Game {
    board: Vec<Vec<char>>,
    players: Vec<char>,
    num_to_connect: usize,
    rows: usize,
    cols: usize,
    winning_places: Vec<(usize, usize)>,
    piece_count: usize,
}

impl View for Game {
    type V = GameView;

    closed spec fn view(&self) -> GameView {
        GameView {
            grid: Seq::new(self.board@.len(), |i: int| self.board@[i]@),
            players: self.players@,
            connect: self.num_to_connect as nat,
            rows: self.rows as nat,
            cols: self.cols as nat,
            winning: self.winning_places@,
            remaining: self.piece_count as nat,
        }
    }
}

impl Game {
    /// The invariant every match keeps: a rectangular board of at least 3 by
    /// 3, a connect-length of at least 3 that fits in both dimensions, at
    /// least two distinct non-blank player symbols, and a remaining-cells
    /// counter that equals the number of empty cells on the board.
    pub open spec fn wf(self) -> bool {
        &&& 3 <= self@.rows
        &&& 3 <= self@.cols
        &&& 3 <= self@.connect <= self@.rows
        &&& self@.connect <= self@.cols
        &&& grid_rect(self@.grid, self@.rows as int, self@.cols as int)
        &&& 2 <= self@.players.len()
        &&& distinct_chars(self@.players)
        &&& no_blank(self@.players)
        &&& self@.remaining == grid_empties(self@.grid)
    }

    /// A fresh match: an empty rows-by-cols board, every cell still to be
    /// filled, and no winning line recorded.
    pub fn new(players: Vec<char>, cols: usize, rows: usize, num_to_connect: usize) -> (g: Game)
        requires
            3 <= rows,
            3 <= cols,
            3 <= num_to_connect,
            num_to_connect <= rows,
            num_to_connect <= cols,
            rows * cols <= usize::MAX,
            2 <= players@.len(),
            distinct_chars(players@),
            no_blank(players@),
        ensures
            g.wf(),
            g@.rows == rows,
            g@.cols == cols,
            g@.connect == num_to_connect,
            g@.players == players@,
            g@.winning.len() == 0,
            g@.remaining == rows * cols,
            forall|r: int, c: int|
                0 <= r < rows && 0 <= c < cols ==> #[trigger] g@.grid[r][c] == ' ',
    {
        let mut board: Vec<Vec<char>> = Vec::new();
        let mut r: usize = 0;
        while r < rows
            invariant
                r <= rows,
                board@.len() == r,
                forall|i: int| 0 <= i < r ==> (#[trigger] board@[i])@.len() == cols,
                forall|i: int, j: int|
                    0 <= i < r && 0 <= j < cols ==> (#[trigger] board@[i]@[j]) == ' ',
            decreases rows - r,
        {
            let mut row: Vec<char> = Vec::new();
            let mut c: usize = 0;
            while c < cols
                invariant
                    c <= cols,
                    row@.len() == c,
                    forall|j: int| 0 <= j < c ==> row@[j] == ' ',
                decreases cols - c,
            {
                row.push(' ');
                c += 1;
            }
            board.push(row);
            r += 1;
        }
        let game = Game {
            board,
            winning_places: Vec::new(),
            players,
            num_to_connect,
            rows,
            cols,
            piece_count: cols * rows,
        };
        proof {
            assert forall|rr: int, cc: int| 0 <= rr < rows && 0 <= cc < cols implies #[trigger] game@.grid[rr][cc]
                == ' ' by {
                assert(game@.grid[rr] == game.board@[rr]@);
            }
            lemma_blank_grid_empties(game@.grid, cols as int);
            assert(game@.grid.len() * cols == rows * cols) by (nonlinear_arith)
                requires game@.grid.len() == rows;
        }
        game
    }

    /// Drops a piece into the 0-indexed column `place`: the piece settles in
    /// the lowest empty cell of that column, and nothing else changes. The
    /// caller has checked that the column's top cell is still empty.
    #[verifier::loop_isolation(false)]
    pub fn place_piece(&mut self, place: usize, player: char)
        requires
            old(self).wf(),
            place < old(self)@.cols,
            old(self)@.grid[0][place as int] == ' ',
            player != ' ',
        ensures
            exists|r: int|
                #[trigger] is_landing(old(self)@.grid, place as int, r) && final(self)@.grid
                    == grid_update(old(self)@.grid, r, place as int, player),
            grid_rect(final(self)@.grid, old(self)@.rows as int, old(self)@.cols as int),
            final(self)@.players == old(self)@.players,
            final(self)@.connect == old(self)@.connect,
            final(self)@.rows == old(self)@.rows,
            final(self)@.cols == old(self)@.cols,
            final(self)@.winning == old(self)@.winning,
            final(self)@.remaining == old(self)@.remaining,
    {
        let ghost g0 = self@.grid;
        let mut row: usize = self.rows;
        while row > 0
            invariant
                *self == *old(self),
                row <= self@.rows,
                forall|r2: int|
                    row <= r2 < self@.grid.len() ==> (#[trigger] self@.grid[r2][place as int])
                        != ' ',
            decreases row,
        {
            row -= 1;
            proof {
                assert(self@.grid[row as int] == self.board@[row as int]@);
            }
            if self.board[row][place] == ' ' {
                proof {
                    assert(is_landing(g0, place as int, row as int));
                }
                self.board[row][place] = player;
                proof {
                    assert forall|i: int| 0 <= i < self.board@.len() implies (#[trigger] self@.grid[i])
                        == grid_update(g0, row as int, place as int, player)[i] by {
                        assert(self@.grid[i] == self.board@[i]@);
                    }
                    assert(self@.grid =~= grid_update(g0, row as int, place as int, player));
                    assert(grid_rect(self@.grid, old(self)@.rows as int, old(self)@.cols as int));
                }
                return;
            }
        }
        proof {
            assert(self@.grid[0][place as int] != ' ');
            assert(false);
        }
    }

    /// One move: the piece is dropped into the 1-indexed `column`. A column
    /// outside `[1, cols]` is rejected as out of range, a column whose top
    /// cell is occupied as full, and a rejected move changes nothing. An
    /// accepted move settles the piece in the lowest empty cell of the
    /// column and counts one fewer remaining cell.
    pub fn place(&mut self, column: usize, symbol: char) -> (r: Result<(), PlacementError>)
        requires
            old(self).wf(),
            symbol != ' ',
        ensures
            final(self).wf(),
            final(self)@.players == old(self)@.players,
            final(self)@.connect == old(self)@.connect,
            final(self)@.rows == old(self)@.rows,
            final(self)@.cols == old(self)@.cols,
            final(self)@.winning == old(self)@.winning,
            r == Ok::<(), PlacementError>(()) <==> (1 <= column <= old(self)@.cols && old(
                self,
            )@.grid[0][column - 1] == ' '),
            r == Err::<(), PlacementError>(PlacementError::ColumnOutOfRange) <==> !(1 <= column
                <= old(self)@.cols),
            r == Err::<(), PlacementError>(PlacementError::ColumnFull) <==> (1 <= column <= old(
                self,
            )@.cols && old(self)@.grid[0][column - 1] != ' '),
            r is Err ==> final(self)@ == old(self)@,
            r is Ok ==> final(self)@.remaining + 1 == old(self)@.remaining,
            r is Ok ==> exists|rr: int|
                #[trigger] is_landing(old(self)@.grid, column - 1, rr) && final(self)@.grid
                    == grid_update(old(self)@.grid, rr, column - 1, symbol),
    {
        if column < 1 || column > self.cols {
            return Err(PlacementError::ColumnOutOfRange);
        }
        let col = column - 1;
        proof {
            assert(self@.grid[0] == self.board@[0]@);
        }
        if self.board[0][col] != ' ' {
            return Err(PlacementError::ColumnFull);
        }
        let ghost g0 = self@.grid;
        self.place_piece(col, symbol);
        proof {
            let rr = choose|rr: int|
                #[trigger] is_landing(g0, col as int, rr) && self@.grid == grid_update(
                    g0,
                    rr,
                    col as int,
                    symbol,
                );
            lemma_grid_empties_update(g0, rr, col as int, symbol);
        }
        self.piece_count -= 1;
        Ok(())
    }

    /// Whether the `num_to_connect` cells rightwards from (row, col) all
    /// hold `player`.
    #[verifier::loop_isolation(false)]
    fn check_horiz(&self, row: usize, col: usize, player: char) -> (r: bool)
        requires
            self.wf(),
            row < self@.rows,
            col + self@.connect <= self@.cols,
        ensures
            r == horiz_run(self@.grid, player, row as int, col as int, self@.connect as int),
    {
        let n = self.num_to_connect;
        let mut i: usize = 0;
        while i < n
            invariant
                i <= n,
                forall|k: int|
                    0 <= k < i ==> #[trigger] horiz_cell(self@.grid, row as int, col as int, k)
                        == player,
            decreases n - i,
        {
            proof {
                assert(self@.grid[row as int] == self.board@[row as int]@);
            }
            if self.board[row][col + i] != player {
                proof {
                    assert(horiz_cell(self@.grid, row as int, col as int, i as int) != player);
                }
                return false;
            }
            proof {
                assert(horiz_cell(self@.grid, row as int, col as int, i as int) == player);
            }
            i += 1;
        }
        true
    }

    /// Whether the `num_to_connect` cells downwards from (row, col) all
    /// hold `player`.
    #[verifier::loop_isolation(false)]
    fn check_vert(&self, row: usize, col: usize, player: char) -> (r: bool)
        requires
            self.wf(),
            row + self@.connect <= self@.rows,
            col < self@.cols,
        ensures
            r == vert_run(self@.grid, player, row as int, col as int, self@.connect as int),
    {
        let n = self.num_to_connect;
        let mut i: usize = 0;
        while i < n
            invariant
                i <= n,
                forall|k: int|
                    0 <= k < i ==> #[trigger] vert_cell(self@.grid, row as int, col as int, k)
                        == player,
            decreases n - i,
        {
            proof {
                assert(self@.grid[row + i] == self.board@[row + i]@);
            }
            if self.board[row + i][col] != player {
                proof {
                    assert(vert_cell(self@.grid, row as int, col as int, i as int) != player);
                }
                return false;
            }
            proof {
                assert(vert_cell(self@.grid, row as int, col as int, i as int) == player);
            }
            i += 1;
        }
        true
    }

    /// Whether the `num_to_connect` cells down and rightwards from
    /// (row, col) all hold `player`.
    #[verifier::loop_isolation(false)]
    fn check_down_right(&self, row: usize, col: usize, player: char) -> (r: bool)
        requires
            self.wf(),
            row + self@.connect <= self@.rows,
            col + self@.connect <= self@.cols,
        ensures
            r == down_right_run(self@.grid, player, row as int, col as int, self@.connect as int),
    {
        let n = self.num_to_connect;
        let mut i: usize = 0;
        while i < n
            invariant
                i <= n,
                forall|k: int|
                    0 <= k < i ==> #[trigger] down_right_cell(
                        self@.grid,
                        row as int,
                        col as int,
                        k,
                    ) == player,
            decreases n - i,
        {
            proof {
                assert(self@.grid[row + i] == self.board@[row + i]@);
            }
            if self.board[row + i][col + i] != player {
                proof {
                    assert(down_right_cell(self@.grid, row as int, col as int, i as int)
                        != player);
                }
                return false;
            }
            proof {
                assert(down_right_cell(self@.grid, row as int, col as int, i as int) == player);
            }
            i += 1;
        }
        true
    }

    /// Whether the `num_to_connect` cells down and leftwards from (row, col)
    /// all hold `player`.
    #[verifier::loop_isolation(false)]
    fn check_down_left(&self, row: usize, col: usize, player: char) -> (r: bool)
        requires
            self.wf(),
            row + self@.connect <= self@.rows,
            self@.connect - 1 <= col < self@.cols,
        ensures
            r == down_left_run(self@.grid, player, row as int, col as int, self@.connect as int),
    {
        let n = self.num_to_connect;
        let mut i: usize = 0;
        while i < n
            invariant
                i <= n,
                forall|k: int|
                    0 <= k < i ==> #[trigger] down_left_cell(self@.grid, row as int, col as int, k)
                        == player,
            decreases n - i,
        {
            proof {
                assert(self@.grid[row + i] == self.board@[row + i]@);
            }
            if self.board[row + i][col - i] != player {
                proof {
                    assert(down_left_cell(self@.grid, row as int, col as int, i as int) != player);
                }
                return false;
            }
            proof {
                assert(down_left_cell(self@.grid, row as int, col as int, i as int) == player);
            }
            i += 1;
        }
        true
    }

    /// Scans for a run of `num_to_connect` cells of `player`: rows first in
    /// row-major order, then columns, then the down-right diagonals, then
    /// the down-left ones, and reports the first starting point found.
    #[verifier::loop_isolation(false)]
    fn find_win(&self, player: char) -> (r: Option<(Direction, usize, usize)>)
        requires
            self.wf(),
        ensures
            r is Some <==> has_win(
                self@.grid,
                self@.rows as int,
                self@.cols as int,
                self@.connect as int,
                player,
            ),
            r matches Some((d, row, col)) ==> found_at(
                self@.grid,
                self@.rows as int,
                self@.cols as int,
                self@.connect as int,
                player,
                d,
                row as int,
                col as int,
            ) && none_earlier(
                self@.grid,
                self@.rows as int,
                self@.cols as int,
                self@.connect as int,
                player,
                d,
                row as int,
                col as int,
            ),
    {
        let rows = self.rows;
        let cols = self.cols;
        let n = self.num_to_connect;
        let ghost g = self@.grid;
        let ghost ri = self@.rows as int;
        let ghost ci = self@.cols as int;
        let ghost ni = self@.connect as int;

        let mut row: usize = 0;
        while row < rows
            invariant
                row <= rows,
                no_horiz_upto(g, ri, ci, ni, player, row as int, 0),
            decreases rows - row,
        {
            let mut col: usize = 0;
            while col <= cols - n
                invariant
                    col <= cols - n + 1,
                    no_horiz_upto(g, ri, ci, ni, player, row as int, col as int),
                decreases cols - col,
            {
                if self.check_horiz(row, col, player) {
                    proof {
                        assert(horiz_run(g, player, row as int, col as int, ni));
                    }
                    return Some((Direction::Horizontal, row, col));
                }
                col += 1;
            }
            row += 1;
        }
        proof {
            assert(no_horiz_win(g, ri, ci, ni, player));
        }

        let mut row: usize = 0;
        while row <= rows - n
            invariant
                row <= rows - n + 1,
                no_vert_upto(g, ri, ci, ni, player, row as int, 0),
            decreases rows - row,
        {
            let mut col: usize = 0;
            while col < cols
                invariant
                    col <= cols,
                    no_vert_upto(g, ri, ci, ni, player, row as int, col as int),
                decreases cols - col,
            {
                if self.check_vert(row, col, player) {
                    proof {
                        assert(vert_run(g, player, row as int, col as int, ni));
                    }
                    return Some((Direction::Vertical, row, col));
                }
                col += 1;
            }
            row += 1;
        }
        proof {
            assert(no_vert_win(g, ri, ci, ni, player));
        }

        let mut row: usize = 0;
        while row <= rows - n
            invariant
                row <= rows - n + 1,
                no_down_right_upto(g, ri, ci, ni, player, row as int, 0),
            decreases rows - row,
        {
            let mut col: usize = 0;
            while col <= cols - n
                invariant
                    col <= cols - n + 1,
                    no_down_right_upto(g, ri, ci, ni, player, row as int, col as int),
                decreases cols - col,
            {
                if self.check_down_right(row, col, player) {
                    proof {
                        assert(down_right_run(g, player, row as int, col as int, ni));
                    }
                    return Some((Direction::DownRight, row, col));
                }
                col += 1;
            }
            row += 1;
        }
        proof {
            assert(no_down_right_win(g, ri, ci, ni, player));
        }

        let mut row: usize = 0;
        while row <= rows - n
            invariant
                row <= rows - n + 1,
                no_down_left_upto(g, ri, ci, ni, player, row as int, n - 1),
            decreases rows - row,
        {
            let mut col: usize = n - 1;
            while col < cols
                invariant
                    n - 1 <= col <= cols,
                    no_down_left_upto(g, ri, ci, ni, player, row as int, col as int),
                decreases cols - col,
            {
                if self.check_down_left(row, col, player) {
                    proof {
                        assert(down_left_run(g, player, row as int, col as int, ni));
                    }
                    return Some((Direction::DownLeft, row, col));
                }
                col += 1;
            }
            row += 1;
        }
        proof {
            assert(no_down_left_win(g, ri, ci, ni, player));
            assert(!has_win(g, ri, ci, ni, player));
        }
        None
    }

    /// Records the horizontal run that starts at (row, col) as the winning
    /// line.
    #[verifier::loop_isolation(false)]
    fn record_horiz(&mut self, row: usize, col: usize)
        requires
            old(self).wf(),
            old(self)@.winning.len() == 0,
            row < old(self)@.rows,
            col + old(self)@.connect <= old(self)@.cols,
        ensures
            final(self).wf(),
            horiz_line(final(self)@.winning, row as int, col as int, old(self)@.connect as int),
            final(self)@.grid == old(self)@.grid,
            final(self)@.players == old(self)@.players,
            final(self)@.connect == old(self)@.connect,
            final(self)@.rows == old(self)@.rows,
            final(self)@.cols == old(self)@.cols,
            final(self)@.remaining == old(self)@.remaining,
    {
        let n = self.num_to_connect;
        let mut j: usize = 0;
        while j < n
            invariant
                j <= n,
                self@.winning.len() == j,
                forall|k: int|
                    0 <= k < j ==> (#[trigger] self@.winning[k]).0 as int == row as int
                        && self@.winning[k].1 as int == col as int + k,
                self@.grid == old(self)@.grid,
                self@.players == old(self)@.players,
                self@.connect == old(self)@.connect,
                self@.rows == old(self)@.rows,
                self@.cols == old(self)@.cols,
                self@.remaining == old(self)@.remaining,
            decreases n - j,
        {
            self.winning_places.push((row, col + j));
            j += 1;
        }
    }

    /// Records the vertical run that starts at (row, col) as the winning
    /// line.
    #[verifier::loop_isolation(false)]
    fn record_vert(&mut self, row: usize, col: usize)
        requires
            old(self).wf(),
            old(self)@.winning.len() == 0,
            row + old(self)@.connect <= old(self)@.rows,
            col < old(self)@.cols,
        ensures
            final(self).wf(),
            vert_line(final(self)@.winning, row as int, col as int, old(self)@.connect as int),
            final(self)@.grid == old(self)@.grid,
            final(self)@.players == old(self)@.players,
            final(self)@.connect == old(self)@.connect,
            final(self)@.rows == old(self)@.rows,
            final(self)@.cols == old(self)@.cols,
            final(self)@.remaining == old(self)@.remaining,
    {
        let n = self.num_to_connect;
        let mut j: usize = 0;
        while j < n
            invariant
                j <= n,
                self@.winning.len() == j,
                forall|k: int|
                    0 <= k < j ==> (#[trigger] self@.winning[k]).0 as int == row as int + k
                        && self@.winning[k].1 as int == col as int,
                self@.grid == old(self)@.grid,
                self@.players == old(self)@.players,
                self@.connect == old(self)@.connect,
                self@.rows == old(self)@.rows,
                self@.cols == old(self)@.cols,
                self@.remaining == old(self)@.remaining,
            decreases n - j,
        {
            self.winning_places.push((row + j, col));
            j += 1;
        }
    }

    /// Records the down-right run that starts at (row, col) as the winning
    /// line.
    #[verifier::loop_isolation(false)]
    fn record_down_right(&mut self, row: usize, col: usize)
        requires
            old(self).wf(),
            old(self)@.winning.len() == 0,
            row + old(self)@.connect <= old(self)@.rows,
            col + old(self)@.connect <= old(self)@.cols,
        ensures
            final(self).wf(),
            down_right_line(
                final(self)@.winning,
                row as int,
                col as int,
                old(self)@.connect as int,
            ),
            final(self)@.grid == old(self)@.grid,
            final(self)@.players == old(self)@.players,
            final(self)@.connect == old(self)@.connect,
            final(self)@.rows == old(self)@.rows,
            final(self)@.cols == old(self)@.cols,
            final(self)@.remaining == old(self)@.remaining,
    {
        let n = self.num_to_connect;
        let mut j: usize = 0;
        while j < n
            invariant
                j <= n,
                self@.winning.len() == j,
                forall|k: int|
                    0 <= k < j ==> (#[trigger] self@.winning[k]).0 as int == row as int + k
                        && self@.winning[k].1 as int == col as int + k,
                self@.grid == old(self)@.grid,
                self@.players == old(self)@.players,
                self@.connect == old(self)@.connect,
                self@.rows == old(self)@.rows,
                self@.cols == old(self)@.cols,
                self@.remaining == old(self)@.remaining,
            decreases n - j,
        {
            self.winning_places.push((row + j, col + j));
            j += 1;
        }
    }

    /// Records the down-left run that starts at (row, col) as the winning
    /// line.
    #[verifier::loop_isolation(false)]
    fn record_down_left(&mut self, row: usize, col: usize)
        requires
            old(self).wf(),
            old(self)@.winning.len() == 0,
            row + old(self)@.connect <= old(self)@.rows,
            old(self)@.connect - 1 <= col < old(self)@.cols,
        ensures
            final(self).wf(),
            down_left_line(
                final(self)@.winning,
                row as int,
                col as int,
                old(self)@.connect as int,
            ),
            final(self)@.grid == old(self)@.grid,
            final(self)@.players == old(self)@.players,
            final(self)@.connect == old(self)@.connect,
            final(self)@.rows == old(self)@.rows,
            final(self)@.cols == old(self)@.cols,
            final(self)@.remaining == old(self)@.remaining,
    {
        let n = self.num_to_connect;
        let mut j: usize = 0;
        while j < n
            invariant
                j <= n,
                self@.winning.len() == j,
                forall|k: int|
                    0 <= k < j ==> (#[trigger] self@.winning[k]).0 as int == row as int + k
                        && self@.winning[k].1 as int == col as int - k,
                self@.grid == old(self)@.grid,
                self@.players == old(self)@.players,
                self@.connect == old(self)@.connect,
                self@.rows == old(self)@.rows,
                self@.cols == old(self)@.cols,
                self@.remaining == old(self)@.remaining,
            decreases n - j,
        {
            self.winning_places.push((row + j, col - j));
            j += 1;
        }
    }

    /// Whether `player` has a run of `num_to_connect` equal cells in any of
    /// the four directions. Returns true exactly when such a run exists; in
    /// that case the coordinates of the first run in scan order (rows, then
    /// columns, then down-right, then down-left diagonals) are recorded as
    /// the winning line. On false the board and the empty winning line are
    /// left as they were.
    pub fn calculate_match(&mut self, player: char) -> (r: bool)
        requires
            old(self).wf(),
            old(self)@.winning.len() == 0,
        ensures
            final(self).wf(),
            final(self)@.grid == old(self)@.grid,
            final(self)@.players == old(self)@.players,
            final(self)@.connect == old(self)@.connect,
            final(self)@.rows == old(self)@.rows,
            final(self)@.cols == old(self)@.cols,
            final(self)@.remaining == old(self)@.remaining,
            r == has_win(
                old(self)@.grid,
                old(self)@.rows as int,
                old(self)@.cols as int,
                old(self)@.connect as int,
                player,
            ),
            !r ==> final(self)@.winning == old(self)@.winning,
            r ==> is_winning_line(
                old(self)@.grid,
                old(self)@.rows as int,
                old(self)@.cols as int,
                old(self)@.connect as int,
                player,
                final(self)@.winning,
            ),
            r ==> is_first_winning_line(
                old(self)@.grid,
                old(self)@.rows as int,
                old(self)@.cols as int,
                old(self)@.connect as int,
                player,
                final(self)@.winning,
            ),
    {
        match self.find_win(player) {
            None => false,
            Some((d, row, col)) => {
                match d {
                    Direction::Horizontal => {
                        self.record_horiz(row, col);
                        proof {
                            assert(horiz_line(
                                self@.winning,
                                row as int,
                                col as int,
                                self@.connect as int,
                            ));
                        }
                    },
                    Direction::Vertical => {
                        self.record_vert(row, col);
                        proof {
                            assert(vert_line(
                                self@.winning,
                                row as int,
                                col as int,
                                self@.connect as int,
                            ));
                        }
                    },
                    Direction::DownRight => {
                        self.record_down_right(row, col);
                        proof {
                            assert(down_right_line(
                                self@.winning,
                                row as int,
                                col as int,
                                self@.connect as int,
                            ));
                        }
                    },
                    Direction::DownLeft => {
                        self.record_down_left(row, col);
                        proof {
                            assert(down_left_line(
                                self@.winning,
                                row as int,
                                col as int,
                                self@.connect as int,
                            ));
                        }
                    },
                }
                true
            },
        }
    }

    /// The match is tied exactly when no cell is left empty and no winning
    /// line was ever recorded.
    pub fn is_tie(&self) -> (r: bool)
        ensures
            r == (self@.remaining == 0 && self@.winning.len() == 0),
    {
        self.piece_count == 0 && self.winning_places.len() == 0
    }

    /// The number of rows of the board.
    pub fn rows(&self) -> (r: usize)
        ensures
            r as nat == self@.rows,
    {
        self.rows
    }

    /// The number of columns of the board.
    pub fn cols(&self) -> (r: usize)
        ensures
            r as nat == self@.cols,
    {
        self.cols
    }

    /// The configured connect-length.
    pub fn connect_length(&self) -> (r: usize)
        ensures
            r as nat == self@.connect,
    {
        self.num_to_connect
    }

    /// The number of cells still empty.
    pub fn remaining_cells(&self) -> (r: usize)
        ensures
            r as nat == self@.remaining,
    {
        self.piece_count
    }

    /// The player symbols in turn order.
    pub fn players(&self) -> (r: &Vec<char>)
        ensures
            r@ == self@.players,
    {
        &self.players
    }

    /// The symbol in cell (row, col), a space standing for an empty cell.
    pub fn cell(&self, row: usize, col: usize) -> (r: char)
        requires
            self.wf(),
            row < self@.rows,
            col < self@.cols,
        ensures
            r == self@.grid[row as int][col as int],
    {
        proof {
            assert(self@.grid[row as int] == self.board@[row as int]@);
        }
        self.board[row][col]
    }

    /// The coordinates of the recorded winning line, empty while the game
    /// goes on.
    pub fn winning_places(&self) -> (r: Vec<(usize, usize)>)
        ensures
            r@ == self@.winning,
    {
        let mut out: Vec<(usize, usize)> = Vec::new();
        let mut i: usize = 0;
        while i < self.winning_places.len()
            invariant
                i <= self.winning_places@.len(),
                out@ =~= self.winning_places@.take(i as int),
            decreases self.winning_places@.len() - i,
        {
            out.push(self.winning_places[i]);
            i += 1;
        }
        proof {
            assert(out@ =~= self@.winning);
        }
        out
    }
}

/// Gravity is deterministic: a column has at most one lowest empty cell, so
/// the landing row that `place` reports is the only one possible.
pub proof fn lemma_landing_unique(g: Seq<Seq<char>>, col: int, r1: int, r2: int)
    requires
        is_landing(g, col, r1),
        is_landing(g, col, r2),
    ensures
        r1 == r2,
{
}

/// A row without empty cells has no empty cell at any position.
proof fn lemma_row_without_empties(row: Seq<char>, c: int)
    requires
        row_empties(row) == 0,
        0 <= c < row.len(),
    ensures
        row[c] != ' ',
    decreases row.len(),
{
    if c < row.len() - 1 {
        lemma_row_without_empties(row.drop_last(), c);
    }
}

/// When the remaining-cells count has reached zero the board is truly full:
/// no cell of a grid without empty cells is empty, so no further placement
/// can succeed.
pub proof fn lemma_full_board_cell(g: Seq<Seq<char>>, r: int, c: int)
    requires
        grid_empties(g) == 0,
        0 <= r < g.len(),
        0 <= c < g[r].len(),
    ensures
        g[r][c] != ' ',
    decreases g.len(),
{
    if r == g.len() - 1 {
        lemma_row_without_empties(g.last(), c);
    } else {
        lemma_full_board_cell(g.drop_last(), r, c);
    }
}

/// Occupying an empty cell of a row lowers its empty-cell count by one.
proof fn lemma_row_empties_update(row: Seq<char>, c: int, p: char)
    requires
        0 <= c < row.len(),
        row[c] == ' ',
        p != ' ',
    ensures
        row_empties(row.update(c, p)) + 1 == row_empties(row),
    decreases row.len(),
{
    let updated = row.update(c, p);
    if c == row.len() - 1 {
        assert(updated.drop_last() =~= row.drop_last());
    } else {
        assert(updated.drop_last() =~= row.drop_last().update(c, p));
        lemma_row_empties_update(row.drop_last(), c, p);
        assert(updated.last() == row.last());
    }
}

/// Occupying an empty cell of the grid lowers its empty-cell count by one.
proof fn lemma_grid_empties_update(g: Seq<Seq<char>>, r: int, c: int, p: char)
    requires
        0 <= r < g.len(),
        0 <= c < g[r].len(),
        g[r][c] == ' ',
        p != ' ',
    ensures
        grid_empties(grid_update(g, r, c, p)) + 1 == grid_empties(g),
    decreases g.len(),
{
    let updated = grid_update(g, r, c, p);
    if r == g.len() - 1 {
        assert(updated.drop_last() =~= g.drop_last());
        assert(updated.last() == g[r].update(c, p));
        lemma_row_empties_update(g[r], c, p);
    } else {
        assert(updated.last() == g.last());
        assert(updated.drop_last() =~= grid_update(g.drop_last(), r, c, p));
        lemma_grid_empties_update(g.drop_last(), r, c, p);
    }
}

/// A row of blanks has as many empty cells as it has cells.
proof fn lemma_blank_row_empties(row: Seq<char>)
    requires
        forall|j: int| 0 <= j < row.len() ==> row[j] == ' ',
    ensures
        row_empties(row) == row.len(),
    decreases row.len(),
{
    if row.len() > 0 {
        lemma_blank_row_empties(row.drop_last());
    }
}

/// A grid of blank rows has as many empty cells as it has cells.
proof fn lemma_blank_grid_empties(g: Seq<Seq<char>>, cols: int)
    requires
        0 <= cols,
        forall|i: int| 0 <= i < g.len() ==> (#[trigger] g[i]).len() == cols,
        forall|i: int, j: int| 0 <= i < g.len() && 0 <= j < cols ==> (#[trigger] g[i][j]) == ' ',
    ensures
        grid_empties(g) == g.len() * cols,
    decreases g.len(),
{
    if g.len() > 0 {
        lemma_blank_grid_empties(g.drop_last(), cols);
        lemma_blank_row_empties(g.last());
        assert(g.len() * cols == (g.len() - 1) * cols + cols) by (nonlinear_arith);
    }
}

} // verus!
