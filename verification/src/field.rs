use vstd::prelude::*;

use crate::grid::{
    count_row, grid_wf, in_bounds, lemma_count_grid_const, lemma_count_grid_update_cell, v2,
};
use rand::Rng;

verus! {

broadcast use crate::grid::lemma_v2_index, crate::grid::lemma_v2_len;

/// A mine-field entry holding this value is a mine; every other entry holds
/// the count of orthogonally adjacent mines.
pub open spec fn is_mine(x: i8) -> bool {
    x == -1
}

/// 1 when `(r, c)` lies on the grid and is a mine, else 0.
pub open spec fn mine_ind(f: Seq<Seq<i8>>, n: int, r: int, c: int) -> int {
    if in_bounds(n, r, c) && f[r][c] == -1 {
        1
    } else {
        0
    }
}

/// How many of the up-to-four orthogonal neighbours of `(r, c)` are mines.
pub open spec fn adj_mines(f: Seq<Seq<i8>>, n: int, r: int, c: int) -> int {
    mine_ind(f, n, r - 1, c) + mine_ind(f, n, r + 1, c) + mine_ind(f, n, r, c - 1) + mine_ind(
        f,
        n,
        r,
        c + 1,
    )
}

/// The entry at `(r, c)` is either a mine or the exact count of its
/// orthogonally adjacent mines.
pub open spec fn cell_lawful(f: Seq<Seq<i8>>, n: int, r: int, c: int) -> bool {
    f[r][c] == -1 || f[r][c] == adj_mines(f, n, r, c)
}

/// A well-formed mine field of side `n`: square, and every entry is a mine or
/// the exact count of its orthogonally adjacent mines.
pub open spec fn field_wf(f: Seq<Seq<i8>>, n: int) -> bool {
    &&& grid_wf(f, n)
    &&& forall|r: int, c: int| in_bounds(n, r, c) ==> #[trigger] cell_lawful(f, n, r, c)
}

/// How many entries of the field are mines.
pub open spec fn mine_total(f: Seq<Seq<i8>>) -> int {
    crate::grid::count_grid(f, |x: i8| is_mine(x))
}

/// Two fields of side `n` have mines in exactly the same places.
pub open spec fn same_mines(f1: Seq<Seq<i8>>, f2: Seq<Seq<i8>>, n: int) -> bool {
    forall|r: int, c: int|
        in_bounds(n, r, c) ==> ((#[trigger] f1[r][c]) == -1 <==> (#[trigger] f2[r][c]) == -1)
}

/// Fields with the same mine placement have the same adjacency counts.
proof fn lemma_adj_same_mines(f1: Seq<Seq<i8>>, f2: Seq<Seq<i8>>, n: int, r: int, c: int)
    requires
        same_mines(f1, f2, n),
    ensures
        adj_mines(f1, n, r, c) == adj_mines(f2, n, r, c),
{
}

/// Rejected game configurations: the board side or the mine count is out of
/// the range the generator serves.
#[derive(Clone, Copy, PartialEq, Eq, Structural, Debug)]
pub enum ConfigurationError {
    InvalidSize,
    InvalidMineCount,
    InvalidField,
}

/// Relies on rand::thread_rng and rand::Rng::gen_range: returns a uniformly
/// drawn index in `[0, n)`; gen_range panics only on an empty range, which
/// `n >= 1` rules out.
#[verifier::external_body]
fn random_below(n: usize) -> (r: usize)
    requires
        n >= 1,
    ensures
        r < n,
{
    rand::thread_rng().gen_range(0..n)
}

/// Count the mines among the orthogonal neighbours of `(r, c)`.
pub(crate) fn adj_count(mines: &Vec<Vec<i8>>, size: usize, r: usize, c: usize) -> (cnt: u8)
    requires
        grid_wf(v2(*mines), size as int),
        r < size,
        c < size,
    ensures
        cnt as int == adj_mines(v2(*mines), size as int, r as int, c as int),
        cnt <= 4,
{
    let mut cnt: u8 = 0;
    if r > 0 && mines[r - 1][c] == -1i8 {
        cnt = cnt + 1;
    }
    if r + 1 < size && mines[r + 1][c] == -1i8 {
        cnt = cnt + 1;
    }
    if c > 0 && mines[r][c - 1] == -1i8 {
        cnt = cnt + 1;
    }
    if c + 1 < size && mines[r][c + 1] == -1i8 {
        cnt = cnt + 1;
    }
    cnt
}

/// Build the immutable mine field: place `required_mines` mines on uniformly
/// drawn distinct cells of a `size` x `size` grid, then fill every non-mine
/// cell with the count of its orthogonally adjacent mines.
pub fn generate_mines(size: usize, required_mines: usize) -> (mines: Vec<Vec<i8>>)
    requires
        1 <= size,
        size * size <= usize::MAX,
        1 <= required_mines <= size * size,
    ensures
        field_wf(v2(mines), size as int),
        mine_total(v2(mines)) == required_mines,
{
    let n = size;
    let total = n * n;

    // an all-zero grid
    let mut mines: Vec<Vec<i8>> = Vec::new();
    let mut r: usize = 0;
    while r < n
        invariant
            r <= n,
            mines@.len() == r,
            forall|i: int| 0 <= i < r ==> (#[trigger] v2(mines)[i]).len() == n,
            forall|i: int, j: int|
                0 <= i < r && 0 <= j < n ==> (#[trigger] v2(mines)[i][j]) == 0i8,
        decreases n - r,
    {
        let mut row: Vec<i8> = Vec::new();
        let mut c: usize = 0;
        while c < n
            invariant
                c <= n,
                row@.len() == c,
                forall|j: int| 0 <= j < c ==> (#[trigger] row@[j]) == 0i8,
            decreases n - c,
        {
            row.push(0i8);
            c = c + 1;
        }
        mines.push(row);
        r = r + 1;
    }

    proof {
        assert forall|i: int| 0 <= i < n implies count_row(
            #[trigger] v2(mines)[i],
            |x: i8| is_mine(x),
        ) == 0 by {
            crate::grid::lemma_count_row_const(v2(mines)[i], |x: i8| is_mine(x));
        }
        lemma_count_grid_const(v2(mines), |x: i8| is_mine(x), n as int);
    }

    // the indices of the cells that are still free of mines
    let mut free: Vec<usize> = Vec::new();
    let mut i: usize = 0;
    while i < total
        invariant
            i <= total,
            free@.len() == i,
            forall|k: int| 0 <= k < i ==> (#[trigger] free@[k]) == k,
        decreases total - i,
    {
        free.push(i);
        i = i + 1;
    }

    proof {
        assert forall|k: int| 0 <= k < free@.len() implies (#[trigger] free@[k]) < total && v2(
            mines,
        )[free@[k] as int / (n as int)][free@[k] as int % (n as int)] == 0i8 by {
            let e = free@[k] as int;
            assert(0 <= e / (n as int) < n && 0 <= e % (n as int) < n) by (nonlinear_arith)
                requires
                    n >= 1,
                    0 <= e < n * n,
            ;
        }
    }

    // draw distinct cells until the requested number of mines stands
    let mut placed: usize = 0;
    while placed < required_mines
        invariant
            placed <= required_mines,
            required_mines <= total,
            total == n * n,
            n >= 1,
            grid_wf(v2(mines), n as int),
            forall|rr: int, cc: int|
                in_bounds(n as int, rr, cc) ==> (#[trigger] v2(mines)[rr][cc]) == 0i8 || v2(
                    mines,
                )[rr][cc] == -1i8,
            mine_total(v2(mines)) == placed,
            free@.len() == total - placed,
            forall|k: int|
                0 <= k < free@.len() ==> (#[trigger] free@[k]) < total && v2(mines)[free@[k] as int
                    / n as int][free@[k] as int % n as int] == 0i8,
            forall|k1: int, k2: int|
                0 <= k1 < free@.len() && 0 <= k2 < free@.len() && k1 != k2 ==> (#[trigger] free@[k1])
                    != (#[trigger] free@[k2]),
        decreases required_mines - placed,
    {
        let j = random_below(free.len());
        let idx = free.swap_remove(j);
        let rr = idx / n;
        let cc = idx % n;
        proof {
            assert(rr < n && cc < n && rr * (n as int) + cc == idx) by (nonlinear_arith)
                requires
                    n >= 1,
                    idx < n * n,
                    rr == idx as int / n as int,
                    cc == idx as int % n as int,
            ;
        }
        let ghost f0 = v2(mines);
        mines[rr][cc] = -1i8;
        proof {
            assert(v2(mines) =~~= f0.update(rr as int, f0[rr as int].update(cc as int, -1i8)));
            lemma_count_grid_update_cell(f0, |x: i8| is_mine(x), rr as int, cc as int, -1i8);
            // the other free cells name other coordinates, so they stay free
            assert forall|k: int| 0 <= k < free@.len() implies (#[trigger] free@[k]) < total && v2(
                mines,
            )[free@[k] as int / n as int][free@[k] as int % n as int] == 0i8 by {
                let e = free@[k] as int;
                assert((e / (n as int)) < n && (e % (n as int)) < n && (e / (n as int)) * (n as int)
                    + (e % (n as int)) == e) by (nonlinear_arith)
                    requires
                        n >= 1,
                        0 <= e < n * n,
                ;
                assert(e != idx);
            }
        }
        placed = placed + 1;
    }

    // second pass: fill every non-mine cell with its adjacency count
    let ghost placed_field = v2(mines);
    let mut pr: usize = 0;
    while pr < n
        invariant
            pr <= n,
            total == n * n,
            n >= 1,
            grid_wf(v2(mines), n as int),
            same_mines(v2(mines), placed_field, n as int),
            mine_total(v2(mines)) == required_mines,
            forall|rr: int, cc: int|
                in_bounds(n as int, rr, cc) && rr >= pr ==> (#[trigger] v2(mines)[rr][cc]) == 0i8
                    || v2(mines)[rr][cc] == -1i8,
            forall|rr: int, cc: int|
                in_bounds(n as int, rr, cc) && rr < pr ==> #[trigger] cell_lawful(
                    v2(mines),
                    n as int,
                    rr,
                    cc,
                ),
        decreases n - pr,
    {
        let mut pc: usize = 0;
        while pc < n
            invariant
                pr < n,
                pc <= n,
                total == n * n,
                n >= 1,
                grid_wf(v2(mines), n as int),
                same_mines(v2(mines), placed_field, n as int),
                mine_total(v2(mines)) == required_mines,
                forall|rr: int, cc: int|
                    in_bounds(n as int, rr, cc) && (rr > pr || (rr == pr && cc >= pc)) ==> (
                    #[trigger] v2(mines)[rr][cc]) == 0i8 || v2(mines)[rr][cc] == -1i8,
                forall|rr: int, cc: int|
                    in_bounds(n as int, rr, cc) && (rr < pr || (rr == pr && cc < pc))
                        ==> #[trigger] cell_lawful(v2(mines), n as int, rr, cc),
            decreases n - pc,
        {
            if mines[pr][pc] != -1i8 {
                let cnt = adj_count(&mines, n, pr, pc);
                let ghost f0 = v2(mines);
                mines[pr][pc] = cnt as i8;
                proof {
                    assert(v2(mines) =~~= f0.update(
                        pr as int,
                        f0[pr as int].update(pc as int, cnt as i8),
                    ));
                    lemma_count_grid_update_cell(
                        f0,
                        |x: i8| is_mine(x),
                        pr as int,
                        pc as int,
                        cnt as i8,
                    );
                    assert forall|rr: int, cc: int|
                        in_bounds(n as int, rr, cc) && (rr < pr || (rr == pr && cc < pc + 1)) implies #[trigger] cell_lawful(
                        v2(mines),
                        n as int,
                        rr,
                        cc,
                    ) by {
                        lemma_adj_same_mines(v2(mines), f0, n as int, rr, cc);
                        if rr < pr || (rr == pr && cc < pc) {
                            assert(cell_lawful(f0, n as int, rr, cc));
                        }
                    }
                }
            }
            pc = pc + 1;
        }
        pr = pr + 1;
    }
    mines
}

/// Decide whether an explicit layout is a lawful mine field: square with at
/// least one row, and every entry either a mine or the exact count of its
/// orthogonally adjacent mines.
pub fn check_field(mines: &Vec<Vec<i8>>) -> (ok: bool)
    ensures
        ok <==> (mines@.len() >= 1 && field_wf(v2(*mines), mines@.len() as int)),
{
    let size = mines.len();
    if size < 1 {
        return false;
    }
    let mut r: usize = 0;
    while r < size
        invariant
            r <= size,
            size == mines@.len(),
            forall|i: int| 0 <= i < r ==> (#[trigger] v2(*mines)[i]).len() == size,
        decreases size - r,
    {
        if mines[r].len() != size {
            return false;
        }
        r = r + 1;
    }
    let mut pr: usize = 0;
    while pr < size
        invariant
            pr <= size,
            size >= 1,
            size == mines@.len(),
            grid_wf(v2(*mines), size as int),
            forall|i: int, j: int|
                in_bounds(size as int, i, j) && i < pr ==> #[trigger] cell_lawful(
                    v2(*mines),
                    size as int,
                    i,
                    j,
                ),
        decreases size - pr,
    {
        let mut pc: usize = 0;
        while pc < size
            invariant
                pr < size,
                pc <= size,
                size >= 1,
                size == mines@.len(),
                grid_wf(v2(*mines), size as int),
                forall|i: int, j: int|
                    in_bounds(size as int, i, j) && (i < pr || (i == pr && j < pc))
                        ==> #[trigger] cell_lawful(v2(*mines), size as int, i, j),
            decreases size - pc,
        {
            let x = mines[pr][pc];
            if x != -1i8 {
                let a = adj_count(mines, size, pr, pc);
                if x != (a as i8) {
                    assert(!cell_lawful(v2(*mines), size as int, pr as int, pc as int));
                    return false;
                }
            }
            pc = pc + 1;
        }
        pr = pr + 1;
    }
    true
}

/// Count the mines of a square layout.
pub fn count_mines(mines: &Vec<Vec<i8>>) -> (m: usize)
    requires
        grid_wf(v2(*mines), mines@.len() as int),
        mines@.len() * mines@.len() <= usize::MAX,
    ensures
        m as int == mine_total(v2(*mines)),
{
    let size = mines.len();
    let ghost f = v2(*mines);
    let ghost pm = |x: i8| is_mine(x);
    let mut m: usize = 0;
    let mut r: usize = 0;
    while r < size
        invariant
            r <= size,
            size == mines@.len(),
            f == v2(*mines),
            grid_wf(f, size as int),
            size * size <= usize::MAX,
            pm == (|x: i8| is_mine(x)),
            m as int == crate::grid::count_grid(f.subrange(0, r as int), pm),
            m <= r * size,
        decreases size - r,
    {
        let mut c: usize = 0;
        let mut rowm: usize = 0;
        while c < size
            invariant
                c <= size,
                r < size,
                size == mines@.len(),
                f == v2(*mines),
                grid_wf(f, size as int),
                pm == (|x: i8| is_mine(x)),
                rowm as int == count_row(f[r as int].subrange(0, c as int), pm),
                rowm <= c,
            decreases size - c,
        {
            proof {
                assert(f[r as int].subrange(0, c as int + 1).drop_last() =~= f[r as int].subrange(
                    0,
                    c as int,
                ));
            }
            if mines[r][c] == -1i8 {
                rowm = rowm + 1;
            }
            c = c + 1;
        }
        proof {
            assert(f[r as int].subrange(0, size as int) =~= f[r as int]);
            assert(f.subrange(0, r as int + 1).drop_last() =~= f.subrange(0, r as int));
            assert((r + 1) * size == r * size + size) by (nonlinear_arith);
            assert((r + 1) * size <= size * size) by (nonlinear_arith)
                requires
                    r < size,
            ;
        }
        m = m + rowm;
        r = r + 1;
    }
    proof {
        assert(f.subrange(0, size as int) =~= f);
    }
    m
}

/// Build a mine field after checking the configuration: the side must be at
/// least 1, the cell count must fit the machine, and the mine count must lie
/// in `[1, size * size]`.  Exactly the rejected configurations come back as a
/// `ConfigurationError`.
pub fn try_generate(size: usize, required_mines: usize) -> (r: Result<
    Vec<Vec<i8>>,
    ConfigurationError,
>)
    ensures
        r is Ok <==> (1 <= size && size * size <= usize::MAX && 1 <= required_mines
            && required_mines <= size * size),
        r matches Ok(m) ==> field_wf(v2(m), size as int) && mine_total(v2(m)) == required_mines,
        r matches Err(e) ==> (e == ConfigurationError::InvalidSize <==> (size < 1 || size * size
            > usize::MAX)),
        r matches Err(e) ==> (e == ConfigurationError::InvalidMineCount <==> (1 <= size && size
            * size <= usize::MAX && (required_mines < 1 || required_mines > size * size))),
{
    if size < 1 {
        return Err(ConfigurationError::InvalidSize);
    }
    match size.checked_mul(size) {
        None => Err(ConfigurationError::InvalidSize),
        Some(total) => {
            if required_mines < 1 || required_mines > total {
                Err(ConfigurationError::InvalidMineCount)
            } else {
                Ok(generate_mines(size, required_mines))
            }
        },
    }
}

} // verus!
