use vstd::prelude::*;

verus! {

/// A square grid of side `n`, held as a sequence of rows.
pub open spec fn grid_wf<T>(g: Seq<Seq<T>>, n: int) -> bool {
    &&& g.len() == n
    &&& forall|r: int| 0 <= r < n ==> (#[trigger] g[r]).len() == n
}

/// `(r, c)` lies on a grid of side `n`.
pub open spec fn in_bounds(n: int, r: int, c: int) -> bool {
    0 <= r < n && 0 <= c < n
}

/// The rows of a grid held as a vector of vectors.
pub open spec fn v2<T>(g: Vec<Vec<T>>) -> Seq<Seq<T>> {
    g@.map_values(|row: Vec<T>| row@)
}

/// Indexing the row view of a vector of vectors reaches the row's own view.
pub broadcast proof fn lemma_v2_index<T>(g: Vec<Vec<T>>, r: int)
    requires
        0 <= r < g@.len(),
    ensures
        v2(g)[r] == (#[trigger] g@[r])@,
{
}

/// The row view of a vector of vectors keeps its length.
pub broadcast proof fn lemma_v2_len<T>(g: Vec<Vec<T>>)
    ensures
        (#[trigger] v2(g)).len() == g@.len(),
{
}

/// How many entries of `s` satisfy `p`.
pub open spec fn count_row<T>(s: Seq<T>, p: spec_fn(T) -> bool) -> int
    decreases s.len(),
{
    if s.len() == 0 {
        0
    } else {
        count_row(s.drop_last(), p) + if p(s.last()) {
            1int
        } else {
            0int
        }
    }
}

/// How many entries of the grid `g` satisfy `p`.
pub open spec fn count_grid<T>(g: Seq<Seq<T>>, p: spec_fn(T) -> bool) -> int
    decreases g.len(),
{
    if g.len() == 0 {
        0
    } else {
        count_grid(g.drop_last(), p) + count_row(g.last(), p)
    }
}

/// A count over a row never leaves `[0, len]`.
pub proof fn lemma_count_row_bounds<T>(s: Seq<T>, p: spec_fn(T) -> bool)
    ensures
        0 <= count_row(s, p) <= s.len(),
    decreases s.len(),
{
    if s.len() > 0 {
        lemma_count_row_bounds(s.drop_last(), p);
    }
}

/// A count over a square grid of side `n` never leaves `[0, n * n]`.
pub proof fn lemma_count_grid_bounds<T>(g: Seq<Seq<T>>, p: spec_fn(T) -> bool, n: int)
    requires
        grid_wf(g, n),
    ensures
        0 <= count_grid(g, p) <= n * n,
    decreases g.len(),
{
    lemma_count_grid_bounds_partial(g, p, n, g.len() as int);
    assert(g.subrange(0, g.len() as int) =~= g);
}

/// Bounds for the count over the first `k` rows of a grid whose rows have length `n`.
proof fn lemma_count_grid_bounds_partial<T>(g: Seq<Seq<T>>, p: spec_fn(T) -> bool, n: int, k: int)
    requires
        0 <= k <= g.len(),
        forall|r: int| 0 <= r < g.len() ==> (#[trigger] g[r]).len() == n,
    ensures
        0 <= count_grid(g.subrange(0, k), p) <= k * n,
    decreases k,
{
    if k == 0 {
        assert(g.subrange(0, 0).len() == 0);
    } else {
        let s = g.subrange(0, k);
        assert(s.drop_last() =~= g.subrange(0, k - 1));
        lemma_count_grid_bounds_partial(g, p, n, k - 1);
        lemma_count_row_bounds(g[k - 1], p);
        assert((k - 1) * n + n == k * n) by (nonlinear_arith);
    }
}

/// Updating entry `i` of a row changes its count by the difference of the two
/// entries' contributions.
pub proof fn lemma_count_row_update<T>(s: Seq<T>, p: spec_fn(T) -> bool, i: int, v: T)
    requires
        0 <= i < s.len(),
    ensures
        count_row(s.update(i, v), p) == count_row(s, p) - (if p(s[i]) {
            1int
        } else {
            0int
        }) + (if p(v) {
            1int
        } else {
            0int
        }),
    decreases s.len(),
{
    let t = s.update(i, v);
    if i == s.len() - 1 {
        assert(t.drop_last() =~= s.drop_last());
    } else {
        assert(t.drop_last() =~= s.drop_last().update(i, v));
        assert(t.last() == s.last());
        lemma_count_row_update(s.drop_last(), p, i, v);
    }
}

/// Replacing row `r` of a grid changes its count by the difference of the two
/// rows' counts.
pub proof fn lemma_count_grid_update_row<T>(
    g: Seq<Seq<T>>,
    p: spec_fn(T) -> bool,
    r: int,
    row: Seq<T>,
)
    requires
        0 <= r < g.len(),
    ensures
        count_grid(g.update(r, row), p) == count_grid(g, p) - count_row(g[r], p) + count_row(
            row,
            p,
        ),
    decreases g.len(),
{
    let t = g.update(r, row);
    if r == g.len() - 1 {
        assert(t.drop_last() =~= g.drop_last());
    } else {
        assert(t.drop_last() =~= g.drop_last().update(r, row));
        assert(t.last() == g.last());
        lemma_count_grid_update_row(g.drop_last(), p, r, row);
    }
}

/// Updating one cell of a grid changes its count by the difference of the two
/// entries' contributions.
pub proof fn lemma_count_grid_update_cell<T>(
    g: Seq<Seq<T>>,
    p: spec_fn(T) -> bool,
    r: int,
    c: int,
    v: T,
)
    requires
        0 <= r < g.len(),
        0 <= c < g[r].len(),
    ensures
        count_grid(g.update(r, g[r].update(c, v)), p) == count_grid(g, p) - (if p(g[r][c]) {
            1int
        } else {
            0int
        }) + (if p(v) {
            1int
        } else {
            0int
        }),
{
    lemma_count_grid_update_row(g, p, r, g[r].update(c, v));
    lemma_count_row_update(g[r], p, c, v);
}

/// A row all of whose entries satisfy `p` counts its full length; one where
/// none does counts zero.
pub proof fn lemma_count_row_const<T>(s: Seq<T>, p: spec_fn(T) -> bool)
    ensures
        (forall|i: int| 0 <= i < s.len() ==> p(#[trigger] s[i])) ==> count_row(s, p) == s.len(),
        (forall|i: int| 0 <= i < s.len() ==> !p(#[trigger] s[i])) ==> count_row(s, p) == 0,
    decreases s.len(),
{
    if s.len() > 0 {
        lemma_count_row_const(s.drop_last(), p);
    }
}

/// A square grid all of whose entries satisfy `p` counts `n * n`; one where
/// none does counts zero.
pub proof fn lemma_count_grid_const<T>(g: Seq<Seq<T>>, p: spec_fn(T) -> bool, n: int)
    requires
        grid_wf(g, n),
    ensures
        (forall|r: int, c: int| in_bounds(n, r, c) ==> p(#[trigger] g[r][c])) ==> count_grid(g, p)
            == n * n,
        (forall|r: int, c: int| in_bounds(n, r, c) ==> !p(#[trigger] g[r][c])) ==> count_grid(g, p)
            == 0,
{
    lemma_count_grid_const_partial(g, p, n, g.len() as int);
    assert(g.subrange(0, g.len() as int) =~= g);
}

proof fn lemma_count_grid_const_partial<T>(g: Seq<Seq<T>>, p: spec_fn(T) -> bool, n: int, k: int)
    requires
        0 <= k <= g.len(),
        g.len() == n,
        forall|r: int| 0 <= r < g.len() ==> (#[trigger] g[r]).len() == n,
    ensures
        (forall|r: int, c: int| in_bounds(n, r, c) ==> p(#[trigger] g[r][c])) ==> count_grid(
            g.subrange(0, k),
            p,
        ) == k * n,
        (forall|r: int, c: int| in_bounds(n, r, c) ==> !p(#[trigger] g[r][c])) ==> count_grid(
            g.subrange(0, k),
            p,
        ) == 0,
    decreases k,
{
    if k == 0 {
        assert(g.subrange(0, 0).len() == 0);
    } else {
        let s = g.subrange(0, k);
        assert(s.drop_last() =~= g.subrange(0, k - 1));
        assert(s.last() == g[k - 1]);
        lemma_count_grid_const_partial(g, p, n, k - 1);
        lemma_count_row_const(g[k - 1], p);
        assert((k - 1) * n + n == k * n) by (nonlinear_arith);
    }
}

/// A grid whose count is zero has no entry satisfying `p`.
pub proof fn lemma_count_grid_zero<T>(g: Seq<Seq<T>>, p: spec_fn(T) -> bool, n: int)
    requires
        grid_wf(g, n),
        count_grid(g, p) == 0,
    ensures
        forall|r: int, c: int| in_bounds(n, r, c) ==> !p(#[trigger] g[r][c]),
{
    assert forall|r: int, c: int| in_bounds(n, r, c) implies !p(#[trigger] g[r][c]) by {
        if p(g[r][c]) {
            lemma_count_grid_pos(g, p, r, c);
        }
    }
}

/// A grid holding one entry that satisfies `p` has a positive count.
pub proof fn lemma_count_grid_pos<T>(g: Seq<Seq<T>>, p: spec_fn(T) -> bool, r: int, c: int)
    requires
        0 <= r < g.len(),
        0 <= c < g[r].len(),
        p(g[r][c]),
    ensures
        count_grid(g, p) >= 1,
    decreases g.len(),
{
    lemma_count_row_bounds(g.last(), p);
    lemma_count_grid_bounds_weak(g.drop_last(), p);
    if r == g.len() - 1 {
        lemma_count_row_pos(g[r], p, c);
    } else {
        lemma_count_grid_pos(g.drop_last(), p, r, c);
    }
}

/// A row holding one entry that satisfies `p` has a positive count.
proof fn lemma_count_row_pos<T>(s: Seq<T>, p: spec_fn(T) -> bool, i: int)
    requires
        0 <= i < s.len(),
        p(s[i]),
    ensures
        count_row(s, p) >= 1,
    decreases s.len(),
{
    lemma_count_row_bounds(s.drop_last(), p);
    if i < s.len() - 1 {
        lemma_count_row_pos(s.drop_last(), p, i);
    }
}

/// A grid count is never negative, whatever the row lengths.
proof fn lemma_count_grid_bounds_weak<T>(g: Seq<Seq<T>>, p: spec_fn(T) -> bool)
    ensures
        count_grid(g, p) >= 0,
    decreases g.len(),
{
    if g.len() > 0 {
        lemma_count_grid_bounds_weak(g.drop_last(), p);
        lemma_count_row_bounds(g.last(), p);
    }
}

} // verus!
