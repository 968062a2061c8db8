use vstd::prelude::*;

use crate::cell::Cell;
use crate::field::{
    check_field, count_mines, field_wf, generate_mines, mine_total, ConfigurationError,
};
use crate::flood::{
    flood_fill, flood_rel, hidden_total, is_hiddenish, is_marked, marked_total,
};
use crate::grid::{
    grid_wf, in_bounds, lemma_count_grid_const, lemma_count_grid_pos,
    lemma_count_grid_update_cell, lemma_count_grid_zero, v2,
};

verus! {

broadcast use crate::grid::lemma_v2_index, crate::grid::lemma_v2_len;

/// A coordinate on the board, clamped to `[0, size)` in each axis.
#[derive(Clone, Copy, PartialEq, Eq, Structural, Debug)]
pub struct Position {
    pub row: usize,
    pub col: usize,
}

/// The forward state machine of one game: play runs until a mine is revealed
/// (lost) or no hidden cell is left (won); both ends are terminal until reset.
#[derive(Clone, Copy, PartialEq, Eq, Structural, Debug)]
pub enum GameStatus {
    Progress,
    Won,
    Lost,
}

/// One orthogonal cursor step.
#[derive(Clone, Copy, PartialEq, Eq, Structural, Debug)]
pub enum Direction {
    Up,
    Down,
    Left,
    Right,
}

/// One minesweeper game: the immutable mine field, the board of what the
/// player has seen, the cursor, and the running counters.
pub struct Game {
    pub size: usize,
    pub mines: Vec<Vec<i8>>,
    pub board: Vec<Vec<Cell>>,
    pub curr_pos: Position,
    pub count_hidden_cells: usize,
    pub mine_count: usize,
    pub flag_count: usize,
    pub status: GameStatus,
}

/// Every mine of the field stands exposed on the board.
pub open spec fn mines_exposed(f: Seq<Seq<i8>>, b: Seq<Seq<Cell>>, n: int) -> bool {
    forall|r: int, c: int|
        in_bounds(n, r, c) && f[r][c] == -1i8 ==> (#[trigger] b[r][c]) == Cell::Mine
}

/// The board never contradicts the field: a revealed number is the cell's true
/// adjacency count, and an exposed mine is a true mine.
pub open spec fn cell_consistent(f: Seq<Seq<i8>>, b: Seq<Seq<Cell>>, r: int, c: int) -> bool {
    match b[r][c] {
        Cell::Num(k) => k <= 4 && f[r][c] == k as i8,
        Cell::Mine => f[r][c] == -1i8,
        _ => true,
    }
}

/// No mine stands exposed on the board.
pub open spec fn no_exposed(b: Seq<Seq<Cell>>, n: int) -> bool {
    forall|r: int, c: int| in_bounds(n, r, c) ==> (#[trigger] b[r][c]) != Cell::Mine
}

/// The board with the flag taken off cell `(r, c)`.
pub open spec fn unflag(b: Seq<Seq<Cell>>, r: int, c: int) -> Seq<Seq<Cell>> {
    b.update(r, b[r].update(c, Cell::Hidden))
}

/// The two boards agree everywhere but possibly at `(row, col)`.
pub open spec fn only_cell_changed(
    b0: Seq<Seq<Cell>>,
    b1: Seq<Seq<Cell>>,
    n: int,
    row: int,
    col: int,
) -> bool {
    forall|r: int, c: int|
        in_bounds(n, r, c) && !(r == row && c == col) ==> (#[trigger] b1[r][c]) == b0[r][c]
}

impl Game {
    /// The mine field, as a sequence of rows.
    pub open spec fn f(self) -> Seq<Seq<i8>> {
        v2(self.mines)
    }

    /// The visible board, as a sequence of rows.
    pub open spec fn b(self) -> Seq<Seq<Cell>> {
        v2(self.board)
    }

    /// The board side as a mathematical integer.
    pub open spec fn n(self) -> int {
        self.size as int
    }

    /// The counters match the board: `count_hidden_cells` counts the cells
    /// still hidden or flagged, `flag_count` the flagged ones.
    pub open spec fn counts_synced(self) -> bool {
        &&& hidden_total(self.b()) == self.count_hidden_cells
        &&& marked_total(self.b()) == self.flag_count
    }

    /// The internal invariant every public operation preserves.
    pub open spec fn wf(self) -> bool {
        &&& 1 <= self.size
        &&& self.size * self.size <= usize::MAX
        &&& field_wf(self.f(), self.n())
        &&& grid_wf(self.b(), self.n())
        &&& mine_total(self.f()) == self.mine_count
        &&& self.flag_count <= self.mine_count
        &&& self.curr_pos.row < self.size
        &&& self.curr_pos.col < self.size
        &&& forall|r: int, c: int|
            in_bounds(self.n(), r, c) ==> #[trigger] cell_consistent(self.f(), self.b(), r, c)
        &&& (self.status == GameStatus::Progress ==> self.counts_synced()
            && self.count_hidden_cells > 0 && no_exposed(self.b(), self.n()))
        &&& (self.status != GameStatus::Progress ==> mines_exposed(self.f(), self.b(), self.n()))
    }
}

/// What `reveal_cell(row, col)` does: nothing once the game is over or on an
/// already revealed cell; on a flagged cell the flag comes off first; a mine
/// loses the game and exposes every mine; any other cell starts a flood fill,
/// and emptying the hidden count wins the game.
pub open spec fn reveal_post(g0: Game, g1: Game, row: int, col: int) -> bool {
    &&& g1.size == g0.size
    &&& g1.mines == g0.mines
    &&& g1.curr_pos == g0.curr_pos
    &&& g1.mine_count == g0.mine_count
    &&& g1.count_hidden_cells <= g0.count_hidden_cells
    &&& (g0.status != GameStatus::Progress ==> g1 == g0)
    &&& (g0.status == GameStatus::Progress ==> {
        let f = g0.f();
        let b0 = g0.b();
        let b1 = g1.b();
        let n = g0.n();
        let was_marked = b0[row][col] == Cell::Marked;
        let cnt = g0.count_hidden_cells - g1.count_hidden_cells;
        &&& (b0[row][col] is Num ==> g1 == g0)
        &&& ((b0[row][col] == Cell::Hidden || was_marked) ==> {
            &&& g1.flag_count == g0.flag_count - (if was_marked {
                1int
            } else {
                0int
            })
            &&& (f[row][col] == -1i8 ==> {
                &&& g1.status == GameStatus::Lost
                &&& g1.count_hidden_cells == g0.count_hidden_cells
                &&& forall|r: int, c: int|
                    in_bounds(n, r, c) ==> (#[trigger] b1[r][c]) == (if f[r][c] == -1i8 {
                        Cell::Mine
                    } else {
                        b0[r][c]
                    })
            })
            &&& (f[row][col] != -1i8 && !was_marked ==> flood_rel(f, b0, b1, n, row, col, cnt))
            &&& (f[row][col] != -1i8 && was_marked ==> flood_rel(
                f,
                unflag(b0, row, col),
                b1,
                n,
                row,
                col,
                cnt,
            ))
            &&& (f[row][col] != -1i8 ==> g1.count_hidden_cells < g0.count_hidden_cells
                && g1.status == (if g1.count_hidden_cells == 0 {
                GameStatus::Won
            } else {
                GameStatus::Progress
            }))
        })
    })
}

/// What `mark_flag(row, col)` does: nothing once the game is over, on a
/// revealed cell, or on a hidden cell when the flag budget is spent; otherwise
/// it toggles the flag and moves `flag_count`, leaving the hidden count alone.
pub open spec fn flag_post(g0: Game, g1: Game, row: int, col: int) -> bool {
    &&& g1.size == g0.size
    &&& g1.mines == g0.mines
    &&& g1.curr_pos == g0.curr_pos
    &&& g1.mine_count == g0.mine_count
    &&& g1.status == g0.status
    &&& g1.count_hidden_cells == g0.count_hidden_cells
    &&& (g0.status != GameStatus::Progress ==> g1 == g0)
    &&& (g0.status == GameStatus::Progress ==> {
        let b0 = g0.b();
        let b1 = g1.b();
        let n = g0.n();
        &&& (b0[row][col] == Cell::Hidden && g0.flag_count < g0.mine_count ==> b1[row][col]
            == Cell::Marked && only_cell_changed(b0, b1, n, row, col) && g1.flag_count
            == g0.flag_count + 1)
        &&& (b0[row][col] == Cell::Hidden && g0.flag_count >= g0.mine_count ==> g1 == g0)
        &&& (b0[row][col] == Cell::Marked ==> b1[row][col] == Cell::Hidden && only_cell_changed(
            b0,
            b1,
            n,
            row,
            col,
        ) && g1.flag_count == g0.flag_count - 1)
        &&& (b0[row][col] is Num ==> g1 == g0)
    })
}

/// Changing one cell to something other than an exposed mine keeps the board
/// consistent with the field and free of exposed mines.
proof fn lemma_board_update_keeps(
    f: Seq<Seq<i8>>,
    b0: Seq<Seq<Cell>>,
    b1: Seq<Seq<Cell>>,
    n: int,
    row: int,
    col: int,
)
    requires
        only_cell_changed(b0, b1, n, row, col),
        in_bounds(n, row, col),
        b1[row][col] == Cell::Hidden || b1[row][col] == Cell::Marked,
        no_exposed(b0, n),
        forall|r: int, c: int| in_bounds(n, r, c) ==> #[trigger] cell_consistent(f, b0, r, c),
    ensures
        forall|r: int, c: int| in_bounds(n, r, c) ==> #[trigger] cell_consistent(f, b1, r, c),
        no_exposed(b1, n),
{
    assert forall|r: int, c: int| in_bounds(n, r, c) implies #[trigger] cell_consistent(f, b1, r, c)
        && b1[r][c] != Cell::Mine by {
        assert(cell_consistent(f, b0, r, c));
        assert(b0[r][c] != Cell::Mine);
    }
}

/// A flood fill keeps the board consistent with the field and exposes no mine:
/// every cell it reveals carries that cell's true adjacency count.
proof fn lemma_flood_keeps(
    f: Seq<Seq<i8>>,
    b0: Seq<Seq<Cell>>,
    b1: Seq<Seq<Cell>>,
    n: int,
    sr: int,
    sc: int,
    cnt: int,
)
    requires
        field_wf(f, n),
        grid_wf(b0, n),
        in_bounds(n, sr, sc),
        f[sr][sc] != -1i8,
        flood_rel(f, b0, b1, n, sr, sc, cnt),
        no_exposed(b0, n),
        forall|r: int, c: int| in_bounds(n, r, c) ==> #[trigger] cell_consistent(f, b0, r, c),
    ensures
        forall|r: int, c: int| in_bounds(n, r, c) ==> #[trigger] cell_consistent(f, b1, r, c),
        no_exposed(b1, n),
{
    assert forall|r: int, c: int| in_bounds(n, r, c) implies #[trigger] cell_consistent(f, b1, r, c)
        && b1[r][c] != Cell::Mine by {
        assert(cell_consistent(f, b0, r, c));
        assert(b0[r][c] != Cell::Mine);
        if b1[r][c] != b0[r][c] {
            assert(b1[r][c] == Cell::Num(f[r][c] as u8));
            assert((r == sr && c == sc) || crate::flood::reachable(f, b0, n, sr, sc, r, c));
            if !(r == sr && c == sc) {
                let k = choose|k: nat| crate::flood::reach(f, b0, n, sr, sc, r, c, k);
                assert(crate::flood::zero_cell(f, b0, n, r, c));
            }
            assert(f[r][c] != -1i8);
            assert(crate::field::cell_lawful(f, n, r, c));
            assert(0 <= f[r][c] <= 4);
        }
    }
}

/// A board of `size` x `size` cells, all hidden.
fn hidden_board(size: usize) -> (board: Vec<Vec<Cell>>)
    requires
        1 <= size,
    ensures
        grid_wf(v2(board), size as int),
        forall|r: int, c: int|
            in_bounds(size as int, r, c) ==> (#[trigger] v2(board)[r][c]) == Cell::Hidden,
{
    let mut board: Vec<Vec<Cell>> = Vec::new();
    let mut r: usize = 0;
    while r < size
        invariant
            r <= size,
            board@.len() == r,
            forall|i: int| 0 <= i < r ==> (#[trigger] v2(board)[i]).len() == size,
            forall|i: int, j: int|
                0 <= i < r && 0 <= j < size ==> (#[trigger] v2(board)[i][j]) == Cell::Hidden,
        decreases size - r,
    {
        let mut row: Vec<Cell> = Vec::new();
        let mut c: usize = 0;
        while c < size
            invariant
                c <= size,
                row@.len() == c,
                forall|j: int| 0 <= j < c ==> (#[trigger] row@[j]) == Cell::Hidden,
            decreases size - c,
        {
            row.push(Cell::Hidden);
            c = c + 1;
        }
        board.push(row);
        r = r + 1;
    }
    board
}

impl Game {
    /// A fresh game on a `size` x `size` board with `size` randomly placed
    /// mines, every cell hidden and the cursor in the corner.
    pub fn new(size: usize) -> (g: Game)
        requires
            1 <= size,
            size * size <= usize::MAX,
        ensures
            g.wf(),
            g.size == size,
            g.mine_count == size,
            g.flag_count == 0,
            g.count_hidden_cells == size * size,
            g.status == GameStatus::Progress,
            g.curr_pos == (Position { row: 0, col: 0 }),
            forall|r: int, c: int|
                in_bounds(size as int, r, c) ==> (#[trigger] g.b()[r][c]) == Cell::Hidden,
    {
        proof {
            assert(size <= size * size && 1 <= size * size) by (nonlinear_arith)
                requires
                    size >= 1,
            ;
        }
        let mines = generate_mines(size, size);
        let board = hidden_board(size);
        proof {
            lemma_count_grid_const(v2(board), |c: Cell| is_hiddenish(c), size as int);
            lemma_count_grid_const(v2(board), |c: Cell| is_marked(c), size as int);
        }
        Game {
            size,
            mines,
            board,
            curr_pos: Position { row: 0, col: 0 },
            count_hidden_cells: size * size,
            mine_count: size,
            flag_count: 0,
            status: GameStatus::Progress,
        }
    }

    /// A fresh game over an explicit mine layout; the layout is checked and a
    /// malformed one is refused.  Exactly the layouts `check_field` accepts
    /// and whose cell count fits the machine are served.
    pub fn from_field(mines: Vec<Vec<i8>>) -> (r: Result<Game, ConfigurationError>)
        ensures
            r is Ok <==> (mines@.len() >= 1 && mines@.len() * mines@.len() <= usize::MAX
                && field_wf(v2(mines), mines@.len() as int)),
            r matches Ok(g) ==> {
                &&& g.wf()
                &&& g.size == mines@.len()
                &&& g.f() == v2(mines)
                &&& g.mine_count == mine_total(v2(mines))
                &&& g.flag_count == 0
                &&& g.count_hidden_cells == g.size * g.size
                &&& g.status == GameStatus::Progress
                &&& g.curr_pos == (Position { row: 0, col: 0 })
                &&& forall|r2: int, c2: int|
                    in_bounds(g.n(), r2, c2) ==> (#[trigger] g.b()[r2][c2]) == Cell::Hidden
            },
            r matches Err(e) ==> (e == ConfigurationError::InvalidSize <==> mines@.len()
                * mines@.len() > usize::MAX),
            r matches Err(e) ==> (e == ConfigurationError::InvalidField <==> (mines@.len()
                * mines@.len() <= usize::MAX && (mines@.len() < 1 || !field_wf(
                v2(mines),
                mines@.len() as int,
            )))),
    {
        let size = mines.len();
        if size.checked_mul(size).is_none() {
            return Err(ConfigurationError::InvalidSize);
        }
        if !check_field(&mines) {
            return Err(ConfigurationError::InvalidField);
        }
        proof {
            assert(1 <= size * size) by (nonlinear_arith)
                requires
                    size >= 1,
            ;
        }
        let mine_count = count_mines(&mines);
        let board = hidden_board(size);
        proof {
            lemma_count_grid_const(v2(board), |c: Cell| is_hiddenish(c), size as int);
            lemma_count_grid_const(v2(board), |c: Cell| is_marked(c), size as int);
        }
        Ok(
            Game {
                size,
                mines,
                board,
                curr_pos: Position { row: 0, col: 0 },
                count_hidden_cells: size * size,
                mine_count,
                flag_count: 0,
                status: GameStatus::Progress,
            },
        )
    }

    /// Throw the whole game away and start a fresh one of the same size: the
    /// shape is exactly that of a new game, though the mines fall anew.
    pub fn reset_game(&mut self)
        requires
            old(self).wf(),
        ensures
            final(self).wf(),
            final(self).size == old(self).size,
            final(self).mine_count == old(self).size,
            final(self).flag_count == 0,
            final(self).count_hidden_cells == old(self).size * old(self).size,
            final(self).status == GameStatus::Progress,
            final(self).curr_pos == (Position { row: 0, col: 0 }),
            forall|r: int, c: int|
                in_bounds(final(self).n(), r, c) ==> (#[trigger] final(self).b()[r][c])
                    == Cell::Hidden,
    {
        let fresh = Game::new(self.size);
        *self = fresh;
    }

    /// The player may still place a flag.
    pub fn can_flag(&self) -> (r: bool)
        ensures
            r == (self.flag_count < self.mine_count),
    {
        self.flag_count < self.mine_count
    }

    /// The currently highlighted cell.
    pub fn get_curr_cell_pos(&self) -> (p: Position)
        ensures
            p == self.curr_pos,
    {
        self.curr_pos
    }

    /// Step the cursor one cell in the given direction, stopping at the edge.
    /// Always legal, whatever the game status.
    pub fn move_cursor(&mut self, d: Direction)
        requires
            old(self).wf(),
        ensures
            final(self).wf(),
            *final(self) == (Game { curr_pos: final(self).curr_pos, ..*old(self) }),
            d == Direction::Up ==> final(self).curr_pos.col == old(self).curr_pos.col && final(self).curr_pos.row == (if old(self).curr_pos.row > 0 {
                old(self).curr_pos.row - 1
            } else {
                0
            }),
            d == Direction::Down ==> final(self).curr_pos.col == old(self).curr_pos.col && final(self).curr_pos.row == (if old(self).curr_pos.row + 1 < old(self).size {
                old(self).curr_pos.row + 1
            } else {
                old(self).curr_pos.row as int
            }),
            d == Direction::Left ==> final(self).curr_pos.row == old(self).curr_pos.row && final(self).curr_pos.col == (if old(self).curr_pos.col > 0 {
                old(self).curr_pos.col - 1
            } else {
                0
            }),
            d == Direction::Right ==> final(self).curr_pos.row == old(self).curr_pos.row && final(self).curr_pos.col == (if old(self).curr_pos.col + 1 < old(self).size {
                old(self).curr_pos.col + 1
            } else {
                old(self).curr_pos.col as int
            }),
    {
        match d {
            Direction::Up => {
                if self.curr_pos.row > 0 {
                    self.curr_pos.row = self.curr_pos.row - 1;
                }
            },
            Direction::Down => {
                if self.curr_pos.row + 1 < self.size {
                    self.curr_pos.row = self.curr_pos.row + 1;
                }
            },
            Direction::Left => {
                if self.curr_pos.col > 0 {
                    self.curr_pos.col = self.curr_pos.col - 1;
                }
            },
            Direction::Right => {
                if self.curr_pos.col + 1 < self.size {
                    self.curr_pos.col = self.curr_pos.col + 1;
                }
            },
        }
    }

    /// Expose every mine of the field on the board, leaving every other cell
    /// as it was.
    fn reveal_mines(&mut self)
        requires
            grid_wf(v2(old(self).mines), old(self).size as int),
            grid_wf(v2(old(self).board), old(self).size as int),
        ensures
            *final(self) == (Game { board: final(self).board, ..*old(self) }),
            grid_wf(final(self).b(), final(self).size as int),
            forall|r: int, c: int|
                in_bounds(old(self).n(), r, c) ==> (#[trigger] final(self).b()[r][c]) == (if old(self).f()[r][c] == -1i8 {
                    Cell::Mine
                } else {
                    old(self).b()[r][c]
                }),
    {
        let size = self.size;
        let mut r: usize = 0;
        while r < size
            invariant
                r <= size,
                size == self.size,
                grid_wf(v2(self.mines), size as int),
                grid_wf(v2(self.board), size as int),
                *self == (Game { board: self.board, ..*old(self) }),
                self.mines == old(self).mines,
                forall|i: int, j: int|
                    in_bounds(size as int, i, j) && i < r ==> (#[trigger] v2(self.board)[i][j]) == (
                    if v2(self.mines)[i][j] == -1i8 {
                        Cell::Mine
                    } else {
                        v2(old(self).board)[i][j]
                    }),
                forall|i: int, j: int|
                    in_bounds(size as int, i, j) && i >= r ==> (#[trigger] v2(self.board)[i][j])
                        == v2(old(self).board)[i][j],
            decreases size - r,
        {
            let mut c: usize = 0;
            while c < size
                invariant
                    r < size,
                    c <= size,
                    size == self.size,
                    grid_wf(v2(self.mines), size as int),
                    grid_wf(v2(self.board), size as int),
                    *self == (Game { board: self.board, ..*old(self) }),
                    self.mines == old(self).mines,
                    forall|i: int, j: int|
                        in_bounds(size as int, i, j) && (i < r || (i == r && j < c)) ==> (
                        #[trigger] v2(self.board)[i][j]) == (if v2(self.mines)[i][j] == -1i8 {
                            Cell::Mine
                        } else {
                            v2(old(self).board)[i][j]
                        }),
                    forall|i: int, j: int|
                        in_bounds(size as int, i, j) && (i > r || (i == r && j >= c)) ==> (
                        #[trigger] v2(self.board)[i][j]) == v2(old(self).board)[i][j],
                decreases size - c,
            {
                if self.mines[r][c] == -1i8 {
                    let ghost bold = v2(self.board);
                    self.board[r][c] = Cell::Mine;
                    proof {
                        assert(v2(self.board) =~~= bold.update(
                            r as int,
                            bold[r as int].update(c as int, Cell::Mine),
                        ));
                    }
                }
                c = c + 1;
            }
            r = r + 1;
        }
    }

    /// Lose the game: the status turns terminal and every mine is exposed.
    fn game_lost(&mut self)
        requires
            grid_wf(v2(old(self).mines), old(self).size as int),
            grid_wf(v2(old(self).board), old(self).size as int),
        ensures
            *final(self) == (Game {
                board: final(self).board,
                status: GameStatus::Lost,
                ..*old(self)
            }),
            grid_wf(final(self).b(), final(self).size as int),
            forall|r: int, c: int|
                in_bounds(old(self).n(), r, c) ==> (#[trigger] final(self).b()[r][c]) == (if old(self).f()[r][c] == -1i8 {
                    Cell::Mine
                } else {
                    old(self).b()[r][c]
                }),
    {
        self.status = GameStatus::Lost;
        self.reveal_mines();
    }

    /// Toggle the flag under `(row, col)` as far as the budget allows; see
    /// `flag_post` for the exact effect.
    pub fn mark_flag(&mut self, row: usize, col: usize)
        requires
            old(self).wf(),
            row < old(self).size,
            col < old(self).size,
        ensures
            final(self).wf(),
            flag_post(*old(self), *final(self), row as int, col as int),
    {
        if !matches!(self.status, GameStatus::Progress) {
            return ;
        }
        let ghost f = v2(self.mines);
        let ghost b0 = v2(self.board);
        let ghost n = self.size as int;
        match self.board[row][col] {
            Cell::Hidden => {
                if self.flag_count < self.mine_count {
                    self.board[row][col] = Cell::Marked;
                    self.flag_count = self.flag_count + 1;
                    proof {
                        let b1 = v2(self.board);
                        assert(b1 =~~= b0.update(
                            row as int,
                            b0[row as int].update(col as int, Cell::Marked),
                        ));
                        lemma_count_grid_update_cell(
                            b0,
                            |c: Cell| is_hiddenish(c),
                            row as int,
                            col as int,
                            Cell::Marked,
                        );
                        lemma_count_grid_update_cell(
                            b0,
                            |c: Cell| is_marked(c),
                            row as int,
                            col as int,
                            Cell::Marked,
                        );
                        assert(only_cell_changed(b0, b1, n, row as int, col as int));
                        lemma_board_update_keeps(f, b0, b1, n, row as int, col as int);
                    }
                }
            },
            Cell::Marked => {
                self.board[row][col] = Cell::Hidden;
                proof {
                    let b1 = v2(self.board);
                    assert(b1 =~~= b0.update(
                        row as int,
                        b0[row as int].update(col as int, Cell::Hidden),
                    ));
                    lemma_count_grid_update_cell(
                        b0,
                        |c: Cell| is_hiddenish(c),
                        row as int,
                        col as int,
                        Cell::Hidden,
                    );
                    lemma_count_grid_update_cell(
                        b0,
                        |c: Cell| is_marked(c),
                        row as int,
                        col as int,
                        Cell::Hidden,
                    );
                    lemma_count_grid_pos(b0, |c: Cell| is_marked(c), row as int, col as int);
                    assert(only_cell_changed(b0, b1, n, row as int, col as int));
                    lemma_board_update_keeps(f, b0, b1, n, row as int, col as int);
                }
                self.flag_count = self.flag_count - 1;
            },
            Cell::Mine => {
                proof {
                    assert(v2(self.board)[row as int][col as int] == Cell::Mine);
                    assert(false);
                }
            },
            Cell::Num(_) => {},
        }
    }

    /// Reveal the cell under `(row, col)`; see `reveal_post` for the exact
    /// effect on the board, the counters and the status.
    pub fn reveal_cell(&mut self, row: usize, col: usize)
        requires
            old(self).wf(),
            row < old(self).size,
            col < old(self).size,
        ensures
            final(self).wf(),
            reveal_post(*old(self), *final(self), row as int, col as int),
    {
        if !matches!(self.status, GameStatus::Progress) {
            return ;
        }
        let ghost f = v2(self.mines);
        let ghost b0 = v2(self.board);
        let ghost n = self.size as int;
        match self.board[row][col] {
            Cell::Hidden => {
                if self.mines[row][col] == -1i8 {
                    self.game_lost();
                    proof {
                        let b1 = v2(self.board);
                        assert forall|r: int, c: int|
                            in_bounds(n, r, c) implies #[trigger] cell_consistent(f, b1, r, c) by {
                            assert(cell_consistent(f, b0, r, c));
                        }
                        assert(mines_exposed(f, b1, n));
                    }
                } else {
                    self.do_flood(row, col);
                }
            },
            Cell::Marked => {
                proof {
                    lemma_count_grid_pos(b0, |c: Cell| is_marked(c), row as int, col as int);
                }
                self.flag_count = self.flag_count - 1;
                self.board[row][col] = Cell::Hidden;
                let ghost bmid = v2(self.board);
                proof {
                    assert(bmid =~~= unflag(b0, row as int, col as int));
                    lemma_count_grid_update_cell(
                        b0,
                        |c: Cell| is_hiddenish(c),
                        row as int,
                        col as int,
                        Cell::Hidden,
                    );
                    lemma_count_grid_update_cell(
                        b0,
                        |c: Cell| is_marked(c),
                        row as int,
                        col as int,
                        Cell::Hidden,
                    );
                    assert(only_cell_changed(b0, bmid, n, row as int, col as int));
                    lemma_board_update_keeps(f, b0, bmid, n, row as int, col as int);
                    assert(self.wf());
                }
                if self.mines[row][col] == -1i8 {
                    self.game_lost();
                    proof {
                        let b1 = v2(self.board);
                        // the unflagged start cell is itself a mine, so the
                        // exposure map over the unflagged board matches the
                        // one over the board as it stood before the unflagging
                        assert forall|r: int, c: int|
                            in_bounds(n, r, c) implies (#[trigger] b1[r][c]) == (if f[r][c]
                            == -1i8 {
                            Cell::Mine
                        } else {
                            b0[r][c]
                        }) by {
                            if f[r][c] != -1i8 {
                                assert(b1[r][c] == bmid[r][c]);
                                assert(!(r == row as int && c == col as int));
                            }
                        }
                        assert forall|r: int, c: int|
                            in_bounds(n, r, c) implies #[trigger] cell_consistent(f, b1, r, c) by {
                            assert(cell_consistent(f, bmid, r, c));
                        }
                        assert(mines_exposed(f, b1, n));
                    }
                } else {
                    self.do_flood(row, col);
                }
            },
            Cell::Mine => {
                proof {
                    assert(v2(self.board)[row as int][col as int] == Cell::Mine);
                    assert(false);
                }
            },
            Cell::Num(_) => {},
        }
    }

    /// Run the flood fill from a hidden non-mine cell, book the newly revealed
    /// cells, and win the game when nothing hidden is left.
    fn do_flood(&mut self, row: usize, col: usize)
        requires
            old(self).wf(),
            old(self).status == GameStatus::Progress,
            row < old(self).size,
            col < old(self).size,
            v2(old(self).board)[row as int][col as int] == Cell::Hidden,
            v2(old(self).mines)[row as int][col as int] != -1i8,
        ensures
            final(self).wf(),
            final(self).size == old(self).size,
            final(self).mines == old(self).mines,
            final(self).curr_pos == old(self).curr_pos,
            final(self).mine_count == old(self).mine_count,
            final(self).flag_count == old(self).flag_count,
            flood_rel(
                old(self).f(),
                old(self).b(),
                final(self).b(),
                old(self).n(),
                row as int,
                col as int,
                old(self).count_hidden_cells - final(self).count_hidden_cells,
            ),
            final(self).count_hidden_cells < old(self).count_hidden_cells,
            final(self).status == (if final(self).count_hidden_cells == 0 {
                GameStatus::Won
            } else {
                GameStatus::Progress
            }),
    {
        let ghost f = v2(self.mines);
        let ghost b0 = v2(self.board);
        let ghost n = self.size as int;
        let cnt = flood_fill(&self.mines, &mut self.board, row, col);
        proof {
            lemma_flood_keeps(f, b0, v2(self.board), n, row as int, col as int, cnt as int);
        }
        self.count_hidden_cells = self.count_hidden_cells - cnt;
        if self.count_hidden_cells == 0 {
            self.status = GameStatus::Won;
            let ghost b1 = v2(self.board);
            proof {
                // nothing is hidden any more, so no cell can be a mine, and
                // exposing the mines will touch nothing
                lemma_count_grid_zero(b1, |c: Cell| is_hiddenish(c), n);
                assert forall|r: int, c: int|
                    in_bounds(n, r, c) implies (#[trigger] f[r][c]) != -1i8 by {
                    if f[r][c] == -1i8 {
                        assert(!is_hiddenish(b1[r][c]));
                        assert(b1[r][c] != Cell::Mine);
                        assert(b1[r][c] is Num);
                        assert(cell_consistent(f, b1, r, c));
                    }
                }
            }
            self.reveal_mines();
            proof {
                assert(v2(self.board) =~~= b1);
                assert(mines_exposed(f, v2(self.board), n));
            }
        }
    }

    /// Drive the game with one key: enter reveals the highlighted cell, `f`
    /// toggles its flag, anything else is ignored.
    pub fn process_char(&mut self, c: char)
        requires
            old(self).wf(),
        ensures
            final(self).wf(),
            c == '\n' ==> reveal_post(
                *old(self),
                *final(self),
                old(self).curr_pos.row as int,
                old(self).curr_pos.col as int,
            ),
            c == 'f' ==> flag_post(
                *old(self),
                *final(self),
                old(self).curr_pos.row as int,
                old(self).curr_pos.col as int,
            ),
            c != '\n' && c != 'f' ==> *final(self) == *old(self),
    {
        if c == '\n' {
            let pos = self.get_curr_cell_pos();
            self.reveal_cell(pos.row, pos.col);
        } else if c == 'f' {
            let pos = self.get_curr_cell_pos();
            self.mark_flag(pos.row, pos.col);
        }
    }

    /// What the player sees at `(row, col)`.
    pub fn cell_at(&self, row: usize, col: usize) -> (c: Cell)
        requires
            self.wf(),
            row < self.size,
            col < self.size,
        ensures
            c == self.b()[row as int][col as int],
    {
        self.board[row][col]
    }

    /// The board side.
    pub fn get_size(&self) -> (s: usize)
        ensures
            s == self.size,
    {
        self.size
    }

    /// How many mines the field holds.
    pub fn get_mine_count(&self) -> (m: usize)
        ensures
            m == self.mine_count,
    {
        self.mine_count
    }

    /// How many flags stand on the board.
    pub fn get_flag_count(&self) -> (m: usize)
        ensures
            m == self.flag_count,
    {
        self.flag_count
    }

    /// How many cells are still hidden or flagged.
    pub fn get_hidden_count(&self) -> (m: usize)
        ensures
            m == self.count_hidden_cells,
    {
        self.count_hidden_cells
    }

    /// Whether the game is running, won or lost.
    pub fn get_status(&self) -> (s: GameStatus)
        ensures
            s == self.status,
    {
        self.status
    }
}

/// A well-formed game never flags more cells than it has mines, and the flag
/// count, being a machine integer, never goes negative.
pub proof fn lemma_flag_budget(g: Game)
    requires
        g.wf(),
    ensures
        g.flag_count <= g.mine_count,
        g.flag_count >= 0,
{
}

/// While a game is in progress the hidden count only ever falls: revealing
/// strictly lowers it when it does anything, and flagging leaves it alone.
pub proof fn lemma_hidden_monotone(g0: Game, g1: Game, row: int, col: int)
    requires
        reveal_post(g0, g1, row, col) || flag_post(g0, g1, row, col),
    ensures
        g1.count_hidden_cells <= g0.count_hidden_cells,
{
}

/// A game whose hidden count has reached zero is no longer in progress: the
/// win check runs after every command that can change the count.
pub proof fn lemma_zero_hidden_ends(g: Game)
    requires
        g.wf(),
        g.count_hidden_cells == 0,
    ensures
        g.status != GameStatus::Progress,
{
}

} // verus!
