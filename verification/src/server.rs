//! The server: advances an encrypted board through homomorphic generations
//! under the evaluation key alone, never decrypting anything.

use vstd::prelude::*;
use crate::client::{EncryptedGrid, cell_at, dec_cells, under_cells};
use crate::fhe::{
    EncryptedCell, EvalContext, activate, add_cells, cipher_value, clone_cell, compatible,
    eq_cells, is_cipher, or_bools, select_cell, trivial_cell,
};
use crate::grid::{bits, rect};
use crate::life::{after_steps, alive_at, lemma_step_bits, live_neighbors, next_cell, step_spec};

verus! {

/// The premise under which the homomorphic operations of a step are
/// meaningful: `ck` is the client key the active evaluation key was derived
/// from, every cell of `e` is a ciphertext under `ck`, and the board those
/// cells decrypt to is a 0/1 board.
pub open spec fn session(
    ctx: EvalContext,
    e: Seq<Seq<EncryptedCell>>,
    ck: tfhe::ClientKey,
) -> bool {
    &&& compatible(ctx.key_spec(), ck)
    &&& under_cells(e, ck)
    &&& bits(dec_cells(e, ck))
}

/// Row of the `k`-th of the eight neighbour offsets, in the order the
/// circuit visits them (the row above, the same row, the row below).
pub open spec fn nb_x(x: int, k: int) -> int {
    if k <= 2 {
        x - 1
    } else if k <= 4 {
        x
    } else {
        x + 1
    }
}

/// Column of the `k`-th of the eight neighbour offsets.
pub open spec fn nb_y(y: int, k: int) -> int {
    if k == 0 || k == 3 || k == 5 {
        y - 1
    } else if k == 1 || k == 6 {
        y
    } else {
        y + 1
    }
}

/// The sum of the first `k` of the eight neighbour terms of (x, y).
pub open spec fn partial_neighbors(d: Seq<Seq<u8>>, x: int, y: int, k: int) -> int
    decreases k,
{
    if k <= 0 {
        0
    } else {
        partial_neighbors(d, x, y, k - 1) + alive_at(d, nb_x(x, k - 1), nb_y(y, k - 1))
    }
}

/// That, in every session of the context, `c` is a ciphertext holding the
/// sum of the first `k` neighbour terms of (x, y) on `e`'s decryption.
pub open spec fn counts_to(
    ctx: EvalContext,
    e: Seq<Seq<EncryptedCell>>,
    c: EncryptedCell,
    x: int,
    y: int,
    k: int,
) -> bool {
    forall|ck: tfhe::ClientKey|
        #[trigger] session(ctx, e, ck)
            ==> is_cipher(c, ck)
                && cipher_value(c, ck) == partial_neighbors(dec_cells(e, ck), x, y, k)
}

/// The eight partial terms together are the neighbour count.
proof fn lemma_partial_full(d: Seq<Seq<u8>>, x: int, y: int)
    ensures
        partial_neighbors(d, x, y, 8) == live_neighbors(d, x, y),
{
    reveal_with_fuel(partial_neighbors, 9);
}

/// A partial neighbour sum of `k` 0/1 terms is at most `k`.
proof fn lemma_partial_bound(d: Seq<Seq<u8>>, x: int, y: int, k: int)
    ensures
        0 <= partial_neighbors(d, x, y, k),
        k >= 0 ==> partial_neighbors(d, x, y, k) <= k,
    decreases k,
{
    if k > 0 {
        lemma_partial_bound(d, x, y, k - 1);
    }
}

/// A neighbour offset that falls off the board contributes nothing: the
/// partial sum over `k + 1` terms is the one over `k`.
proof fn lemma_skip(
    ctx: EvalContext,
    e: Seq<Seq<EncryptedCell>>,
    c: EncryptedCell,
    x: int,
    y: int,
    k: int,
)
    requires
        0 <= k < 8,
        counts_to(ctx, e, c, x, y, k),
        !(0 <= nb_x(x, k) < e.len() && 0 <= nb_y(y, k) < e[nb_x(x, k)].len()),
    ensures
        counts_to(ctx, e, c, x, y, k + 1),
{
    assert forall|ck: tfhe::ClientKey| #[trigger] session(ctx, e, ck) implies is_cipher(c, ck)
        && cipher_value(c, ck) == partial_neighbors(dec_cells(e, ck), x, y, k + 1) by {
        let d = dec_cells(e, ck);
        assert(d.len() == e.len());
        if 0 <= nb_x(x, k) < e.len() {
            assert(d[nb_x(x, k)].len() == e[nb_x(x, k)].len());
        }
        assert(alive_at(d, nb_x(x, k), nb_y(y, k)) == 0);
    }
}

/// The server of the protocol: holds the evaluation key and an encrypted
/// board, and owns no plaintext and no decryption capability.
pub struct Server {
    server_key: tfhe::ServerKey,
    grid: EncryptedGrid,
}

impl Server {
    /// The evaluation key the server was given.
    pub closed spec fn key(&self) -> tfhe::ServerKey {
        self.server_key
    }

    /// The encrypted board the server was given.
    pub closed spec fn enc(&self) -> Seq<Seq<EncryptedCell>> {
        self.grid@
    }

    /// Stores the evaluation key and the encrypted board; nothing is
    /// computed yet.
    pub fn new(server_key: tfhe::ServerKey, grid: EncryptedGrid) -> (s: Server)
        ensures
            s.key() == server_key,
            s.enc() == grid@,
    {
        Server { server_key, grid }
    }

    /// Activates the evaluation key in the execution context, then applies
    /// the homomorphic step exactly `steps` times in sequence, each step
    /// reading only the board the previous one produced, and returns the
    /// final board. Zero steps return the stored board itself, ciphertext
    /// for ciphertext. For the client key the evaluation key was derived
    /// from, and a stored board of ciphertexts of that key decrypting to a
    /// 0/1 board, the result decrypts to exactly the board the reference
    /// rule reaches after `steps` generations. No plaintext is ever
    /// materialised.
    pub fn run(&self, steps: u32) -> (r: EncryptedGrid)
        requires
            rect(self.enc()),
        ensures
            r@.len() == self.enc().len(),
            forall|i: int| 0 <= i < r@.len() ==> #[trigger] r@[i].len() == self.enc()[i].len(),
            steps == 0 ==> r@ == self.enc(),
            forall|ck: tfhe::ClientKey|
                #[trigger] compatible(self.key(), ck) && under_cells(self.enc(), ck)
                    && bits(dec_cells(self.enc(), ck))
                    ==> under_cells(r@, ck)
                        && dec_cells(r@, ck) == after_steps(
                            dec_cells(self.enc(), ck),
                            steps as nat,
                        ),
    {
        let ctx = activate(&self.server_key);
        let mut cur = clone_grid(&self.grid);
        let mut k: u32 = 0;
        while k < steps
            invariant
                rect(self.enc()),
                ctx.key_spec() == self.key(),
                k <= steps,
                k == 0 ==> cur@ == self.enc(),
                cur@.len() == self.enc().len(),
                forall|i: int|
                    0 <= i < cur@.len() ==> #[trigger] cur@[i].len() == self.enc()[i].len(),
                forall|ck: tfhe::ClientKey|
                    #[trigger] compatible(self.key(), ck) && under_cells(self.enc(), ck)
                        && bits(dec_cells(self.enc(), ck))
                        ==> under_cells(cur@, ck) && bits(dec_cells(cur@, ck))
                            && dec_cells(cur@, ck) == after_steps(
                                dec_cells(self.enc(), ck),
                                k as nat,
                            ),
            decreases steps - k,
        {
            proof {
                assert forall|t: int| 0 <= t < cur@.len() implies #[trigger] cur@[t].len()
                    == cur@[0].len() by {}
                assert(rect(cur@));
            }
            let next = step(&ctx, &cur);
            proof {
                assert forall|ck: tfhe::ClientKey|
                    #[trigger] compatible(self.key(), ck) && under_cells(self.enc(), ck)
                        && bits(dec_cells(self.enc(), ck))
                        implies under_cells(next@, ck) && bits(dec_cells(next@, ck))
                            && dec_cells(next@, ck) == after_steps(
                                dec_cells(self.enc(), ck),
                                (k + 1) as nat,
                            ) by {
                    lemma_step_bits(dec_cells(cur@, ck));
                    assert(after_steps(dec_cells(self.enc(), ck), (k + 1) as nat)
                        == step_spec(after_steps(dec_cells(self.enc(), ck), k as nat)));
                }
            }
            cur = next;
            k = k + 1;
        }
        cur
    }
}

/// A ciphertext-for-ciphertext copy of an encrypted board.
fn clone_grid(g: &EncryptedGrid) -> (r: EncryptedGrid)
    ensures
        r@ == g@,
{
    let mut out: Vec<Vec<EncryptedCell>> = Vec::new();
    let mut i: usize = 0;
    while i < g.cells.len()
        invariant
            i <= g@.len(),
            out@.len() == i,
            forall|a: int| 0 <= a < i ==> #[trigger] out@[a]@ == g@[a],
        decreases g@.len() - i,
    {
        let mut row: Vec<EncryptedCell> = Vec::new();
        let mut j: usize = 0;
        while j < g.cells[i].len()
            invariant
                i < g@.len(),
                j <= g@[i as int].len(),
                row@.len() == j,
                forall|b: int| 0 <= b < j ==> #[trigger] row@[b] == g@[i as int][b],
            decreases g@[i as int].len() - j,
        {
            let c = clone_cell(&g.cells[i][j]);
            row.push(c);
            j = j + 1;
        }
        proof {
            assert(row@ =~= g@[i as int]);
        }
        out.push(row);
        i = i + 1;
    }
    let r = EncryptedGrid { cells: out };
    proof {
        assert(r@ =~= g@);
    }
    r
}

/// One homomorphic generation: every cell of the returned board is the
/// homomorphic Conway circuit applied to `g`, which is read as one
/// immutable snapshot and left untouched; the new board is assembled
/// separately, so no cell a sibling computation reads is ever overwritten.
fn step(ctx: &EvalContext, g: &EncryptedGrid) -> (r: EncryptedGrid)
    requires
        rect(g@),
    ensures
        r@.len() == g@.len(),
        forall|i: int| 0 <= i < r@.len() ==> #[trigger] r@[i].len() == g@[i].len(),
        forall|ck: tfhe::ClientKey|
            #[trigger] compatible(ctx.key_spec(), ck) && under_cells(g@, ck)
                && bits(dec_cells(g@, ck))
                ==> under_cells(r@, ck) && dec_cells(r@, ck) == step_spec(dec_cells(g@, ck)),
{
    let rows = g.cells.len();
    let mut out: Vec<Vec<EncryptedCell>> = Vec::new();
    let mut i: usize = 0;
    while i < rows
        invariant
            rect(g@),
            rows == g@.len(),
            i <= rows,
            out@.len() == i,
            forall|a: int| 0 <= a < i ==> #[trigger] out@[a]@.len() == g@[a].len(),
            forall|ck: tfhe::ClientKey|
                #[trigger] session(*ctx, g@, ck)
                    ==> forall|a: int, b: int|
                        0 <= a < i && 0 <= b < out@[a]@.len()
                            ==> is_cipher(#[trigger] out@[a]@[b], ck)
                                && cipher_value(out@[a]@[b], ck)
                                    == next_cell(dec_cells(g@, ck), a, b),
        decreases rows - i,
    {
        let cols = g.cells[i].len();
        let mut row: Vec<EncryptedCell> = Vec::new();
        let mut j: usize = 0;
        while j < cols
            invariant
                rect(g@),
                rows == g@.len(),
                i < rows,
                cols == g@[i as int].len(),
                j <= cols,
                row@.len() == j,
                forall|ck: tfhe::ClientKey|
                    #[trigger] session(*ctx, g@, ck)
                        ==> forall|b: int|
                            0 <= b < j
                                ==> is_cipher(#[trigger] row@[b], ck)
                                    && cipher_value(row@[b], ck)
                                        == next_cell(dec_cells(g@, ck), i as int, b),
            decreases cols - j,
        {
            let c = update_cell(ctx, g, i, j);
            row.push(c);
            j = j + 1;
        }
        out.push(row);
        i = i + 1;
    }
    let r = EncryptedGrid { cells: out };
    proof {
        assert forall|ck: tfhe::ClientKey|
            #[trigger] compatible(ctx.key_spec(), ck) && under_cells(g@, ck)
                && bits(dec_cells(g@, ck))
                implies under_cells(r@, ck) && dec_cells(r@, ck) == step_spec(dec_cells(g@, ck)) by {
            assert(session(*ctx, g@, ck));
            assert(dec_cells(r@, ck) =~~= step_spec(dec_cells(g@, ck)));
        }
    }
    r
}

/// The fixed, constant-depth homomorphic circuit for one cell of the next
/// generation, reading the snapshot `g`: an encrypted neighbour count over
/// the on-board neighbours only, an encrypted "alive" test against a
/// trivial 1, encrypted tests of the count against 3 and against 2-or-3,
/// and one final encrypted selection, `alive ? (count in {2,3}) : (count ==
/// 3)`, which covers the survival rule and the birth rule in one circuit.
fn update_cell(ctx: &EvalContext, g: &EncryptedGrid, x: usize, y: usize) -> (r: EncryptedCell)
    requires
        rect(g@),
        x < g@.len(),
        y < g@[x as int].len(),
    ensures
        forall|ck: tfhe::ClientKey|
            #[trigger] session(*ctx, g@, ck)
                ==> is_cipher(r, ck)
                    && cipher_value(r, ck) == next_cell(dec_cells(g@, ck), x as int, y as int),
{
    let rows = g.cells.len();
    let cols = g.cells[0].len();
    let ghost gx = x as int;
    let ghost gy = y as int;
    proof {
        assert(rows == g@.len());
        assert(cols == g@[0].len());
    }
    let zero = trivial_cell(ctx, 0);
    let one = trivial_cell(ctx, 1);
    let two = trivial_cell(ctx, 2);
    let three = trivial_cell(ctx, 3);

    let mut count = trivial_cell(ctx, 0);
    proof {
        assert forall|ck: tfhe::ClientKey| #[trigger] session(*ctx, g@, ck) implies is_cipher(
            count,
            ck,
        ) && cipher_value(count, ck) == partial_neighbors(dec_cells(g@, ck), gx, gy, 0) by {}
        assert(counts_to(*ctx, g@, count, gx, gy, 0));
    }
    if x >= 1 {
        if y >= 1 {
            count = accumulate(ctx, count, g, x - 1, y - 1, Ghost(gx), Ghost(gy), Ghost(0));
        } else {
            proof {
                lemma_skip(*ctx, g@, count, gx, gy, 0);
            }
        }
        count = accumulate(ctx, count, g, x - 1, y, Ghost(gx), Ghost(gy), Ghost(1));
        if y + 1 < cols {
            count = accumulate(ctx, count, g, x - 1, y + 1, Ghost(gx), Ghost(gy), Ghost(2));
        } else {
            proof {
                lemma_skip(*ctx, g@, count, gx, gy, 2);
            }
        }
    } else {
        proof {
            lemma_skip(*ctx, g@, count, gx, gy, 0);
            lemma_skip(*ctx, g@, count, gx, gy, 1);
            lemma_skip(*ctx, g@, count, gx, gy, 2);
        }
    }
    if y >= 1 {
        count = accumulate(ctx, count, g, x, y - 1, Ghost(gx), Ghost(gy), Ghost(3));
    } else {
        proof {
            lemma_skip(*ctx, g@, count, gx, gy, 3);
        }
    }
    if y + 1 < cols {
        count = accumulate(ctx, count, g, x, y + 1, Ghost(gx), Ghost(gy), Ghost(4));
    } else {
        proof {
            lemma_skip(*ctx, g@, count, gx, gy, 4);
        }
    }
    if x + 1 < rows {
        if y >= 1 {
            count = accumulate(ctx, count, g, x + 1, y - 1, Ghost(gx), Ghost(gy), Ghost(5));
        } else {
            proof {
                lemma_skip(*ctx, g@, count, gx, gy, 5);
            }
        }
        count = accumulate(ctx, count, g, x + 1, y, Ghost(gx), Ghost(gy), Ghost(6));
        if y + 1 < cols {
            count = accumulate(ctx, count, g, x + 1, y + 1, Ghost(gx), Ghost(gy), Ghost(7));
        } else {
            proof {
                lemma_skip(*ctx, g@, count, gx, gy, 7);
            }
        }
    } else {
        proof {
            lemma_skip(*ctx, g@, count, gx, gy, 5);
            lemma_skip(*ctx, g@, count, gx, gy, 6);
            lemma_skip(*ctx, g@, count, gx, gy, 7);
        }
    }
    proof {
        assert(counts_to(*ctx, g@, count, gx, gy, 8));
    }

    let cell = cell_at(g, x, y);
    let alive = eq_cells(ctx, cell, &one);
    let eq3 = eq_cells(ctx, &count, &three);
    let eq_three = select_cell(ctx, &eq3, &one, &zero);
    let eq2 = eq_cells(ctx, &count, &two);
    let eq3b = eq_cells(ctx, &count, &three);
    let or23 = or_bools(ctx, &eq2, &eq3b);
    let eq_two_or_three = select_cell(ctx, &or23, &one, &zero);
    let r = select_cell(ctx, &alive, &eq_two_or_three, &eq_three);
    proof {
        assert forall|ck: tfhe::ClientKey| #[trigger] session(*ctx, g@, ck) implies is_cipher(
            r,
            ck,
        ) && cipher_value(r, ck) == next_cell(dec_cells(g@, ck), gx, gy) by {
            let d = dec_cells(g@, ck);
            assert(is_cipher(g@[gx][gy], ck));
            assert(d[gx][gy] == cipher_value(g@[gx][gy], ck));
            lemma_partial_full(d, gx, gy);
            assert(cipher_value(count, ck) == live_neighbors(d, gx, gy));
        }
    }
    r
}

/// Adds the on-board neighbour (nx, ny) — the `k`-th of the eight offsets
/// of (x, y) — into the running encrypted count. The sum cannot wrap: at
/// most `k` of the eight 0/1 terms are in so far.
fn accumulate(
    ctx: &EvalContext,
    count: EncryptedCell,
    g: &EncryptedGrid,
    nx: usize,
    ny: usize,
    x: Ghost<int>,
    y: Ghost<int>,
    k: Ghost<int>,
) -> (r: EncryptedCell)
    requires
        nx < g@.len(),
        ny < g@[nx as int].len(),
        0 <= k@ < 8,
        nx == nb_x(x@, k@),
        ny == nb_y(y@, k@),
        counts_to(*ctx, g@, count, x@, y@, k@),
    ensures
        counts_to(*ctx, g@, r, x@, y@, k@ + 1),
{
    let cell = cell_at(g, nx, ny);
    let r = add_cells(ctx, &count, cell);
    proof {
        assert forall|ck: tfhe::ClientKey| #[trigger] session(*ctx, g@, ck) implies is_cipher(
            r,
            ck,
        ) && cipher_value(r, ck) == partial_neighbors(dec_cells(g@, ck), x@, y@, k@ + 1) by {
            let d = dec_cells(g@, ck);
            assert(is_cipher(g@[nx as int][ny as int], ck));
            assert(d[nx as int][ny as int] == cipher_value(g@[nx as int][ny as int], ck));
            assert(d[nx as int][ny as int] <= 1);
            assert(alive_at(d, nx as int, ny as int) == d[nx as int][ny as int]);
            lemma_partial_bound(d, x@, y@, k@);
            assert(cipher_value(count, ck) + cipher_value(*cell, ck) <= 8);
        }
    }
    r
}

} // verus!
