use vstd::prelude::*;
use crate::grid::{Grid, bits, wf_grid};

verus! {

/// 1 where (x, y) lies on the board and holds a live cell, else 0. A
/// coordinate outside the board never counts: there is no wrap-around.
pub open spec fn alive_at(g: Seq<Seq<u8>>, x: int, y: int) -> int {
    if 0 <= x < g.len() && 0 <= y < g[x].len() && g[x][y] == 1 {
        1
    } else {
        0
    }
}

/// How many of the up to eight adjacent cells of (x, y) are alive.
pub open spec fn live_neighbors(g: Seq<Seq<u8>>, x: int, y: int) -> int {
    alive_at(g, x - 1, y - 1) + alive_at(g, x - 1, y) + alive_at(g, x - 1, y + 1)
        + alive_at(g, x, y - 1) + alive_at(g, x, y + 1)
        + alive_at(g, x + 1, y - 1) + alive_at(g, x + 1, y) + alive_at(g, x + 1, y + 1)
}

/// Conway's rule for one cell: a live cell survives on two or three live
/// neighbours, a dead cell is born on exactly three.
pub open spec fn next_cell(g: Seq<Seq<u8>>, x: int, y: int) -> u8 {
    let n = live_neighbors(g, x, y);
    if g[x][y] == 1 {
        if n == 2 || n == 3 {
            1u8
        } else {
            0u8
        }
    } else {
        if n == 3 {
            1u8
        } else {
            0u8
        }
    }
}

/// One generation: every cell of the new board is Conway's rule applied to
/// the old board, which is read as one immutable snapshot.
pub open spec fn step_spec(g: Seq<Seq<u8>>) -> Seq<Seq<u8>> {
    Seq::new(g.len(), |i: int| Seq::new(g[i].len(), |j: int| next_cell(g, i, j)))
}

/// `n` generations, each one reading the board the previous one produced.
pub open spec fn after_steps(g: Seq<Seq<u8>>, n: nat) -> Seq<Seq<u8>>
    decreases n,
{
    if n == 0 {
        g
    } else {
        step_spec(after_steps(g, (n - 1) as nat))
    }
}

/// Every cell of a stepped board is 0 or 1, whatever the board held.
pub proof fn lemma_step_bits(g: Seq<Seq<u8>>)
    ensures
        bits(step_spec(g)),
{
}

/// A step keeps the board's shape.
pub proof fn lemma_step_shape(g: Seq<Seq<u8>>)
    ensures
        step_spec(g).len() == g.len(),
        forall|i: int| 0 <= i < g.len() ==> #[trigger] step_spec(g)[i].len() == g[i].len(),
{
}

/// A step of a well-formed board is well-formed.
pub proof fn lemma_step_wf(g: Seq<Seq<u8>>)
    requires
        wf_grid(g),
    ensures
        wf_grid(step_spec(g)),
{
    lemma_step_bits(g);
    lemma_step_shape(g);
}

/// No cell on the board is alive.
pub open spec fn all_dead(g: Seq<Seq<u8>>) -> bool {
    forall|i: int, j: int|
        0 <= i < g.len() && 0 <= j < g[i].len() ==> #[trigger] g[i][j] == 0
}

/// An all-dead board of any shape is a fixed point: it stays exactly
/// itself after any number of generations.
pub proof fn lemma_dead_grid_stays_dead(g: Seq<Seq<u8>>, n: nat)
    requires
        all_dead(g),
    ensures
        after_steps(g, n) == g,
    decreases n,
{
    if n > 0 {
        lemma_dead_grid_stays_dead(g, (n - 1) as nat);
        assert forall|i: int| 0 <= i < g.len() implies step_spec(g)[i] == g[i] by {
            assert forall|j: int| 0 <= j < g[i].len() implies next_cell(g, i, j) == g[i][j] by {
                assert(g[i][j] == 0);
                assert(live_neighbors(g, i, j) == 0);
            }
            assert(step_spec(g)[i] =~= g[i]);
        }
        assert(step_spec(g) =~= g);
    }
}

/// A board of a single cell always transitions to dead: the cell has no
/// neighbours on the board, so it can neither survive nor be born.
pub proof fn lemma_single_cell_dies(g: Seq<Seq<u8>>)
    requires
        g.len() == 1,
        g[0].len() == 1,
    ensures
        step_spec(g)[0][0] == 0,
{
    assert(live_neighbors(g, 0, 0) == 0);
}

/// Conway's rule for the cell at (i, j), read off the board `g`.
fn next_cell_exec(g: &Grid, i: usize, j: usize) -> (c: u8)
    requires
        g.wf(),
        i < g@.len(),
        j < g@[i as int].len(),
    ensures
        c == next_cell(g@, i as int, j as int),
{
    let n = live_neighbors_count(g, i, j);
    let cur = g.cell(i, j);
    if cur == 1 {
        if n == 2 || n == 3 {
            1
        } else {
            0
        }
    } else {
        if n == 3 {
            1
        } else {
            0
        }
    }
}

/// Counts the live cells among the up to eight on-board neighbours of
/// (i, j); off-board positions contribute nothing.
fn live_neighbors_count(g: &Grid, i: usize, j: usize) -> (n: u8)
    requires
        g.wf(),
        i < g@.len(),
        j < g@[i as int].len(),
    ensures
        n == live_neighbors(g@, i as int, j as int),
{
    let rows = g.rows();
    let cols = g.cols();
    let mut n: u8 = 0;
    if i >= 1 {
        if j >= 1 {
            n = n + g.cell(i - 1, j - 1);
        }
        n = n + g.cell(i - 1, j);
        if j + 1 < cols {
            n = n + g.cell(i - 1, j + 1);
        }
    }
    if j >= 1 {
        n = n + g.cell(i, j - 1);
    }
    if j + 1 < cols {
        n = n + g.cell(i, j + 1);
    }
    if i + 1 < rows {
        if j >= 1 {
            n = n + g.cell(i + 1, j - 1);
        }
        n = n + g.cell(i + 1, j);
        if j + 1 < cols {
            n = n + g.cell(i + 1, j + 1);
        }
    }
    n
}

/// One generation of the board: the returned board is Conway's rule applied
/// to every cell of `g`, which is left untouched. The result is pinned to
/// `step_spec`, so two calls on equal boards return equal boards.
pub fn next_generation(g: &Grid) -> (r: Grid)
    requires
        g.wf(),
    ensures
        r.wf(),
        r@ == step_spec(g@),
{
    let rows = g.rows();
    let cols = g.cols();
    let mut out: Vec<Vec<u8>> = Vec::new();
    let mut i: usize = 0;
    while i < rows
        invariant
            g.wf(),
            rows == g@.len(),
            cols == g@[0].len(),
            i <= rows,
            out@.len() == i,
            forall|a: int| 0 <= a < i ==> #[trigger] out@[a]@ == step_spec(g@)[a],
        decreases rows - i,
    {
        let mut row: Vec<u8> = Vec::new();
        let mut j: usize = 0;
        while j < cols
            invariant
                g.wf(),
                rows == g@.len(),
                cols == g@[0].len(),
                i < rows,
                j <= cols,
                row@.len() == j,
                forall|b: int| 0 <= b < j ==> #[trigger] row@[b] == next_cell(g@, i as int, b),
            decreases cols - j,
        {
            let c = next_cell_exec(g, i, j);
            row.push(c);
            j = j + 1;
        }
        proof {
            assert(row@ =~= step_spec(g@)[i as int]);
        }
        out.push(row);
        i = i + 1;
    }
    let r = Grid { cells: out };
    proof {
        assert(r@ =~~= step_spec(g@));
        lemma_step_wf(g@);
    }
    r
}

/// `steps` generations in sequence, each one reading only the board the
/// previous generation produced, starting from a copy of `g`.
pub fn grid_after_steps(g: &Grid, steps: u32) -> (r: Grid)
    requires
        g.wf(),
    ensures
        r.wf(),
        r@ == after_steps(g@, steps as nat),
{
    let mut cur = Grid { cells: g.to_rows() };
    let mut k: u32 = 0;
    while k < steps
        invariant
            cur.wf(),
            k <= steps,
            cur@ == after_steps(g@, k as nat),
        decreases steps - k,
    {
        cur = next_generation(&cur);
        k = k + 1;
        proof {
            assert(after_steps(g@, k as nat) == step_spec(after_steps(g@, (k - 1) as nat)));
        }
    }
    cur
}

} // verus!
