use vstd::prelude::*;

use crate::cell::Cell;
use crate::field::field_wf;
use crate::grid::{
    count_grid, grid_wf, in_bounds, lemma_count_grid_bounds, lemma_count_grid_update_cell, v2,
};

verus! {

broadcast use crate::grid::lemma_v2_index, crate::grid::lemma_v2_len;

/// The cell has not been permanently revealed: it still counts towards the
/// hidden-cell total, whether plain hidden or flagged.
pub open spec fn is_hiddenish(c: Cell) -> bool {
    c == Cell::Hidden || c == Cell::Marked
}

/// The cell carries a flag.
pub open spec fn is_marked(c: Cell) -> bool {
    c == Cell::Marked
}

/// How many cells of the board are still hidden or flagged.
pub open spec fn hidden_total(b: Seq<Seq<Cell>>) -> int {
    count_grid(b, |c: Cell| is_hiddenish(c))
}

/// How many cells of the board carry a flag.
pub open spec fn marked_total(b: Seq<Seq<Cell>>) -> int {
    count_grid(b, |c: Cell| is_marked(c))
}

/// `(r2, c2)` is an orthogonal neighbour of `(r1, c1)`.
pub open spec fn adjacent(r1: int, c1: int, r2: int, c2: int) -> bool {
    ||| (r2 == r1 - 1 && c2 == c1)
    ||| (r2 == r1 + 1 && c2 == c1)
    ||| (r2 == r1 && c2 == c1 - 1)
    ||| (r2 == r1 && c2 == c1 + 1)
}

/// An in-bounds cell that carries no adjacent mines and is still plain hidden
/// on the board `b`: the cells a flood fill travels through.
pub open spec fn zero_cell(f: Seq<Seq<i8>>, b: Seq<Seq<Cell>>, n: int, r: int, c: int) -> bool {
    in_bounds(n, r, c) && f[r][c] == 0i8 && b[r][c] == Cell::Hidden
}

/// `(tr, tc)` can be reached from `(sr, sc)` in at most `k` orthogonal steps,
/// every cell on the way (both ends included) being a hidden zero cell.
pub open spec fn reach(
    f: Seq<Seq<i8>>,
    b: Seq<Seq<Cell>>,
    n: int,
    sr: int,
    sc: int,
    tr: int,
    tc: int,
    k: nat,
) -> bool
    decreases k,
{
    &&& zero_cell(f, b, n, sr, sc)
    &&& zero_cell(f, b, n, tr, tc)
    &&& ((sr == tr && sc == tc) || (k > 0 && exists|mr: int, mc: int|
        #[trigger] adjacent(mr, mc, tr, tc) && reach(f, b, n, sr, sc, mr, mc, (k - 1) as nat)))
}

/// `(tr, tc)` lies in the connected region of hidden zero cells around
/// `(sr, sc)`.
pub open spec fn reachable(
    f: Seq<Seq<i8>>,
    b: Seq<Seq<Cell>>,
    n: int,
    sr: int,
    sc: int,
    tr: int,
    tc: int,
) -> bool {
    exists|k: nat| reach(f, b, n, sr, sc, tr, tc, k)
}

/// If `(ur, uc)` is a hidden zero cell of `b0`, the board `b` has changed it.
pub open spec fn nbr_ok(
    f: Seq<Seq<i8>>,
    b0: Seq<Seq<Cell>>,
    b: Seq<Seq<Cell>>,
    n: int,
    ur: int,
    uc: int,
) -> bool {
    zero_cell(f, b0, n, ur, uc) ==> b[ur][uc] != b0[ur][uc]
}

/// Every hidden zero neighbour of `(r, c)` has been revealed on `b`.
pub open spec fn expanded(
    f: Seq<Seq<i8>>,
    b0: Seq<Seq<Cell>>,
    b: Seq<Seq<Cell>>,
    n: int,
    r: int,
    c: int,
) -> bool {
    &&& nbr_ok(f, b0, b, n, r - 1, c)
    &&& nbr_ok(f, b0, b, n, r + 1, c)
    &&& nbr_ok(f, b0, b, n, r, c - 1)
    &&& nbr_ok(f, b0, b, n, r, c + 1)
}

/// `(r, c)` is an entry of the worklist.
pub open spec fn in_stack(st: Seq<(usize, usize)>, r: int, c: int) -> bool {
    exists|i: int| 0 <= i < st.len() && (#[trigger] st[i]).0 == r && st[i].1 == c
}

/// Every changed zero cell that is not on the worklist has all its hidden zero
/// neighbours revealed.
pub open spec fn closed_except(
    f: Seq<Seq<i8>>,
    b0: Seq<Seq<Cell>>,
    b: Seq<Seq<Cell>>,
    n: int,
    st: Seq<(usize, usize)>,
) -> bool {
    forall|r: int, c: int|
        in_bounds(n, r, c) && b[r][c] != b0[r][c] && f[r][c] == 0i8 && !in_stack(st, r, c)
            ==> #[trigger] expanded(f, b0, b, n, r, c)
}

/// What one flood fill from the non-mine cell `(sr, sc)` does to a board: it
/// reveals exactly that cell together with the connected region of hidden zero
/// cells around it, writes each revealed cell's adjacency count, counts the
/// revealed cells, and touches nothing else.
pub open spec fn flood_rel(
    f: Seq<Seq<i8>>,
    b0: Seq<Seq<Cell>>,
    b1: Seq<Seq<Cell>>,
    n: int,
    sr: int,
    sc: int,
    cnt: int,
) -> bool {
    &&& grid_wf(b1, n)
    &&& forall|r: int, c: int|
        in_bounds(n, r, c) ==> (#[trigger] b1[r][c]) == b0[r][c] || (b0[r][c] == Cell::Hidden
            && b1[r][c] == Cell::Num(f[r][c] as u8))
    &&& b1[sr][sc] == Cell::Num(f[sr][sc] as u8)
    &&& forall|r: int, c: int|
        in_bounds(n, r, c) ==> ((#[trigger] b1[r][c]) != b0[r][c] <==> ((r == sr && c == sc)
            || reachable(f, b0, n, sr, sc, r, c)))
    &&& hidden_total(b1) == hidden_total(b0) - cnt
    &&& marked_total(b1) == marked_total(b0)
    &&& 1 <= cnt <= hidden_total(b0)
}

/// The fixed surroundings of one flood fill: a lawful field and the board as
/// it stood when the fill began, both square of side `n`.
spec fn ff_ctx(f: Seq<Seq<i8>>, b0: Seq<Seq<Cell>>, n: int) -> bool {
    &&& field_wf(f, n)
    &&& grid_wf(b0, n)
    &&& 1 <= n
    &&& n * n <= usize::MAX
}

/// What holds of the board `b`, the worklist `st` and the running count `cnt`
/// between worklist rounds of a flood fill that started on the zero cell
/// `(sr, sc)`.
spec fn ff_inv(
    f: Seq<Seq<i8>>,
    b0: Seq<Seq<Cell>>,
    n: int,
    sr: int,
    sc: int,
    b: Seq<Seq<Cell>>,
    st: Seq<(usize, usize)>,
    cnt: int,
) -> bool {
    &&& grid_wf(b, n)
    &&& zero_cell(f, b0, n, sr, sc)
    &&& b[sr][sc] != b0[sr][sc]
    &&& forall|r: int, c: int|
        in_bounds(n, r, c) ==> (#[trigger] b[r][c]) == b0[r][c] || (b0[r][c] == Cell::Hidden
            && f[r][c] == 0i8 && b[r][c] == Cell::Num(0u8))
    &&& forall|r: int, c: int|
        in_bounds(n, r, c) && (#[trigger] b[r][c]) != b0[r][c] ==> reachable(f, b0, n, sr, sc, r, c)
    &&& forall|i: int|
        0 <= i < st.len() ==> in_bounds(n, (#[trigger] st[i]).0 as int, st[i].1 as int) && f[st[i].0 as int][st[i].1 as int]
            == 0i8 && b[st[i].0 as int][st[i].1 as int] != b0[st[i].0 as int][st[i].1 as int]
    &&& closed_except(f, b0, b, n, st)
    &&& cnt == hidden_total(b0) - hidden_total(b)
    &&& 0 <= hidden_total(b)
    &&& marked_total(b) == marked_total(b0)
    &&& 1 <= cnt
}

/// Once the worklist is empty the changed region is closed, so everything the
/// start can reach through hidden zero cells has been revealed.
proof fn lemma_reach_revealed(
    f: Seq<Seq<i8>>,
    b0: Seq<Seq<Cell>>,
    b: Seq<Seq<Cell>>,
    n: int,
    sr: int,
    sc: int,
    tr: int,
    tc: int,
    k: nat,
)
    requires
        closed_except(f, b0, b, n, Seq::<(usize, usize)>::empty()),
        b[sr][sc] != b0[sr][sc],
        reach(f, b0, n, sr, sc, tr, tc, k),
    ensures
        b[tr][tc] != b0[tr][tc],
    decreases k,
{
    if !(sr == tr && sc == tc) {
        let (mr, mc) = choose|mr: int, mc: int|
            #[trigger] adjacent(mr, mc, tr, tc) && reach(f, b0, n, sr, sc, mr, mc, (k - 1) as nat);
        lemma_reach_revealed(f, b0, b, n, sr, sc, mr, mc, (k - 1) as nat);
        assert(!in_stack(Seq::<(usize, usize)>::empty(), mr, mc));
        assert(expanded(f, b0, b, n, mr, mc));
    }
}

/// Look at one orthogonal neighbour `(nr, nc)` of the worklist cell
/// `(pr, pc)`: if it is a still-hidden zero cell, reveal it, count it and
/// queue it for its own expansion; otherwise leave everything as it is.
fn visit(
    mines: &Vec<Vec<i8>>,
    board: &mut Vec<Vec<Cell>>,
    stack: &mut Vec<(usize, usize)>,
    count: &mut usize,
    Ghost(b0): Ghost<Seq<Seq<Cell>>>,
    Ghost(sr): Ghost<int>,
    Ghost(sc): Ghost<int>,
    pr: usize,
    pc: usize,
    nr: usize,
    nc: usize,
)
    requires
        ff_ctx(v2(*mines), b0, mines@.len() as int),
        old(board)@.len() == mines@.len(),
        ff_inv(
            v2(*mines),
            b0,
            mines@.len() as int,
            sr,
            sc,
            v2(*old(board)),
            old(stack)@,
            *old(count) as int,
        ),
        in_bounds(mines@.len() as int, pr as int, pc as int),
        v2(*mines)[pr as int][pc as int] == 0i8,
        v2(*old(board))[pr as int][pc as int] != b0[pr as int][pc as int],
        adjacent(pr as int, pc as int, nr as int, nc as int),
        in_bounds(mines@.len() as int, nr as int, nc as int),
    ensures
        final(board)@.len() == mines@.len(),
        ff_inv(
            v2(*mines),
            b0,
            mines@.len() as int,
            sr,
            sc,
            v2(*final(board)),
            final(stack)@,
            *final(count) as int,
        ),
        nbr_ok(v2(*mines), b0, v2(*final(board)), mines@.len() as int, nr as int, nc as int),
        forall|r: int, c: int|
            in_bounds(mines@.len() as int, r, c) && !(r == nr as int && c == nc as int) ==> v2(
                *final(board),
            )[r][c] == v2(*old(board))[r][c],
        forall|r: int, c: int|
            in_bounds(mines@.len() as int, r, c) && v2(*old(board))[r][c] != b0[r][c] ==> v2(
                *final(board),
            )[r][c] != b0[r][c],
        final(stack)@.len() >= old(stack)@.len(),
        forall|i: int| 0 <= i < old(stack)@.len() ==> final(stack)@[i] == old(stack)@[i],
        final(stack)@.len() <= old(stack)@.len() + 1,
        final(stack)@.len() > old(stack)@.len() ==> hidden_total(v2(*final(board))) < hidden_total(
            v2(*old(board)),
        ),
        hidden_total(v2(*final(board))) <= hidden_total(v2(*old(board))),
{
    let ghost f = v2(*mines);
    let ghost n = mines@.len() as int;
    if mines[nr][nc] == 0i8 && board[nr][nc] == Cell::Hidden {
        let ghost bold = v2(*board);
        board[nr][nc] = Cell::Num(0u8);
        proof {
            let bnew = v2(*board);
            assert(bnew =~~= bold.update(nr as int, bold[nr as int].update(nc as int, Cell::Num(0u8))));
            lemma_count_grid_update_cell(bold, |c: Cell| is_hiddenish(c), nr as int, nc as int, Cell::Num(0u8));
            lemma_count_grid_update_cell(bold, |c: Cell| is_marked(c), nr as int, nc as int, Cell::Num(0u8));
            lemma_count_grid_bounds(bnew, |c: Cell| is_hiddenish(c), n);
            lemma_count_grid_bounds(b0, |c: Cell| is_hiddenish(c), n);
            // the neighbour was still hidden on the old board, so it was hidden
            // when the fill began, and the worklist cell's path extends to it
            assert(bold[nr as int][nc as int] == b0[nr as int][nc as int]);
            assert(zero_cell(f, b0, n, nr as int, nc as int));
            assert(reachable(f, b0, n, sr, sc, pr as int, pc as int));
            let k = choose|k: nat| reach(f, b0, n, sr, sc, pr as int, pc as int, k);
            assert(reach(f, b0, n, sr, sc, nr as int, nc as int, k + 1));
            assert(reachable(f, b0, n, sr, sc, nr as int, nc as int));
        }
        stack.push((nr, nc));
        *count = *count + 1;
        proof {
            let bnew = v2(*board);
            let st = stack@;
            assert forall|r: int, c: int|
                in_bounds(n, r, c) && bnew[r][c] != b0[r][c] && f[r][c] == 0i8 && !in_stack(
                    st,
                    r,
                    c,
                ) implies #[trigger] expanded(f, b0, bnew, n, r, c) by {
                if r == nr as int && c == nc as int {
                    assert(st[st.len() - 1] == (nr, nc));
                    assert(in_stack(st, r, c));
                } else {
                    assert(bold[r][c] != b0[r][c]);
                    assert(!in_stack(old(stack)@, r, c)) by {
                        if in_stack(old(stack)@, r, c) {
                            let i = choose|i: int|
                                0 <= i < old(stack)@.len() && (#[trigger] old(stack)@[i]).0 == r
                                    && old(stack)@[i].1 == c;
                            assert(st[i] == old(stack)@[i]);
                        }
                    }
                    assert(expanded(f, b0, bold, n, r, c));
                }
            }
        }
    } else {
        proof {
            // nothing moved; if the neighbour is a hidden zero cell of the old
            // board it must already stand revealed on the current one
            if zero_cell(f, b0, n, nr as int, nc as int) {
                if v2(*board)[nr as int][nc as int] == b0[nr as int][nc as int] {
                    assert(v2(*board)[nr as int][nc as int] == Cell::Hidden);
                    assert(v2(*mines)[nr as int][nc as int] == 0i8);
                    assert(false);
                }
            }
        }
    }
}

/// Reveal the cell `(row, col)` and, when it has no adjacent mines, cascade
/// through the connected region of hidden zero cells around it, revealing each
/// of them.  Returns how many cells moved from hidden to revealed.  On a mine
/// the board is left untouched and the count is zero.
pub fn flood_fill(
    mines: &Vec<Vec<i8>>,
    board: &mut Vec<Vec<Cell>>,
    row: usize,
    col: usize,
) -> (count: usize)
    requires
        field_wf(v2(*mines), mines@.len() as int),
        old(board)@.len() == mines@.len(),
        grid_wf(v2(*old(board)), mines@.len() as int),
        mines@.len() >= 1,
        mines@.len() * mines@.len() <= usize::MAX,
        row < mines@.len(),
        col < mines@.len(),
        v2(*old(board))[row as int][col as int] == Cell::Hidden,
    ensures
        final(board)@.len() == mines@.len(),
        v2(*mines)[row as int][col as int] == -1i8 ==> *final(board) == *old(board) && count == 0,
        v2(*mines)[row as int][col as int] != -1i8 ==> flood_rel(
            v2(*mines),
            v2(*old(board)),
            v2(*final(board)),
            mines@.len() as int,
            row as int,
            col as int,
            count as int,
        ),
{
    let ghost f = v2(*mines);
    let ghost b0 = v2(*old(board));
    let ghost n = mines@.len() as int;
    let v = mines[row][col];
    if v == -1i8 {
        return 0;
    }
    proof {
        assert(crate::field::cell_lawful(f, n, row as int, col as int));
        assert(0 <= v as int <= 4);
        lemma_count_grid_bounds(b0, |c: Cell| is_hiddenish(c), n);
    }
    board[row][col] = Cell::Num(v as u8);
    let mut count: usize = 1;
    proof {
        assert(v2(*board) =~~= b0.update(row as int, b0[row as int].update(col as int, Cell::Num(v as u8))));
        lemma_count_grid_update_cell(b0, |c: Cell| is_hiddenish(c), row as int, col as int, Cell::Num(v as u8));
        lemma_count_grid_update_cell(b0, |c: Cell| is_marked(c), row as int, col as int, Cell::Num(v as u8));
        lemma_count_grid_bounds(v2(*board), |c: Cell| is_hiddenish(c), n);
    }
    if v != 0i8 {
        proof {
            let b1 = v2(*board);
            assert forall|r: int, c: int|
                in_bounds(n, r, c) implies ((#[trigger] b1[r][c]) != b0[r][c] <==> ((r
                == row as int && c == col as int) || reachable(f, b0, n, row as int, col as int, r, c))) by {
                if reachable(f, b0, n, row as int, col as int, r, c) {
                    let k = choose|k: nat| reach(f, b0, n, row as int, col as int, r, c, k);
                    assert(zero_cell(f, b0, n, row as int, col as int));
                    assert(false);
                }
            }
        }
        return count;
    }
    let mut stack: Vec<(usize, usize)> = Vec::new();
    stack.push((row, col));
    proof {
        let st = stack@;
        assert(st[0] == (row, col));
        assert forall|r: int, c: int|
            in_bounds(n, r, c) && v2(*board)[r][c] != b0[r][c] && f[r][c] == 0i8 && !in_stack(
                st,
                r,
                c,
            ) implies #[trigger] expanded(f, b0, v2(*board), n, r, c) by {
            assert(r == row as int && c == col as int);
            assert(in_stack(st, r, c));
        }
        assert(zero_cell(f, b0, n, row as int, col as int));
        assert(reach(f, b0, n, row as int, col as int, row as int, col as int, 0));
        assert(reachable(f, b0, n, row as int, col as int, row as int, col as int));
    }
    while stack.len() > 0
        invariant
            ff_ctx(f, b0, n),
            f == v2(*mines),
            n == mines@.len() as int,
            board@.len() == mines@.len(),
            ff_inv(f, b0, n, row as int, col as int, v2(*board), stack@, count as int),
        decreases hidden_total(v2(*board)), stack@.len(),
    {
        let l = stack.len();
        let p = stack[l - 1];
        let pr = p.0;
        let pc = p.1;
        let nlen = board.len();
        proof {
            assert(stack@[l - 1 as int] == p);
            assert(in_bounds(n, pr as int, pc as int));
            assert(pr < nlen && pc < nlen);
        }
        if pr > 0 {
            visit(mines, board, &mut stack, &mut count, Ghost(b0), Ghost(row as int), Ghost(col as int), pr, pc, pr - 1, pc);
        }
        if pr + 1 < nlen {
            visit(mines, board, &mut stack, &mut count, Ghost(b0), Ghost(row as int), Ghost(col as int), pr, pc, pr + 1, pc);
        }
        if pc > 0 {
            visit(mines, board, &mut stack, &mut count, Ghost(b0), Ghost(row as int), Ghost(col as int), pr, pc, pr, pc - 1);
        }
        if pc + 1 < nlen {
            visit(mines, board, &mut stack, &mut count, Ghost(b0), Ghost(row as int), Ghost(col as int), pr, pc, pr, pc + 1);
        }
        let ghost st_before = stack@;
        stack.swap_remove(l - 1);
        proof {
            let st = stack@;
            let b = v2(*board);
            // the popped cell now has all four neighbours handled
            assert(expanded(f, b0, b, n, pr as int, pc as int)) by {
                if pr == 0 {
                    assert(!in_bounds(n, pr as int - 1, pc as int));
                }
                if pr as int + 1 >= n {
                    assert(!in_bounds(n, pr as int + 1, pc as int));
                }
                if pc == 0 {
                    assert(!in_bounds(n, pr as int, pc as int - 1));
                }
                if pc as int + 1 >= n {
                    assert(!in_bounds(n, pr as int, pc as int + 1));
                }
            }
            // worklist membership survives the removal for every other cell
            assert forall|r: int, c: int|
                in_bounds(n, r, c) && b[r][c] != b0[r][c] && f[r][c] == 0i8 && !in_stack(st, r, c)
                    implies #[trigger] expanded(f, b0, b, n, r, c) by {
                if r == pr as int && c == pc as int {
                } else {
                    if in_stack(st_before, r, c) {
                        let i = choose|i: int|
                            0 <= i < st_before.len() && (#[trigger] st_before[i]).0 == r
                                && st_before[i].1 == c;
                        if i == st_before.len() - 1 {
                            assert(st[l - 1 as int] == st_before[i]);
                            assert(in_stack(st, r, c));
                        } else if i == l - 1 as int {
                            assert(false);
                        } else {
                            assert(st[i] == st_before[i]);
                            assert(in_stack(st, r, c));
                        }
                    } else {
                        assert(expanded(f, b0, b, n, r, c));
                    }
                }
            }
        }
    }
    proof {
        let b1 = v2(*board);
        assert forall|r: int, c: int|
            in_bounds(n, r, c) implies ((#[trigger] b1[r][c]) != b0[r][c] <==> ((r == row as int
            && c == col as int) || reachable(f, b0, n, row as int, col as int, r, c))) by {
            if (r == row as int && c == col as int) || reachable(f, b0, n, row as int, col as int, r, c) {
                if !(r == row as int && c == col as int) {
                    let k = choose|k: nat| reach(f, b0, n, row as int, col as int, r, c, k);
                    assert(closed_except(f, b0, b1, n, stack@));
                    assert(stack@ =~= Seq::<(usize, usize)>::empty());
                    lemma_reach_revealed(f, b0, b1, n, row as int, col as int, r, c, k);
                }
            }
        }
        lemma_count_grid_bounds(b1, |c: Cell| is_hiddenish(c), n);
    }
    count
}

} // verus!
