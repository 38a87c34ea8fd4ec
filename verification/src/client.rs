//! The client: owner of the plaintext board, the secret key and the
//! reference simulator, issuer of the evaluation key, and sole verifier.

use vstd::prelude::*;
use crate::fhe::{
    EncryptedCell, cipher_value, compatible, decrypt_cell, encrypt_cell, gen_client_key,
    gen_server_key, is_cipher,
};
use crate::grid::{Grid, view_of, wf_grid};
use crate::life::{after_steps, grid_after_steps};

verus! {

/// The view of a vector of encrypted rows: each row replaced by its view.
pub open spec fn enc_view_of(cells: Seq<Vec<EncryptedCell>>) -> Seq<Seq<EncryptedCell>> {
    cells.map(|i: int, r: Vec<EncryptedCell>| r@)
}

/// An encrypted board: one ciphertext per cell, in the plaintext board's
/// shape, each cell encrypted independently.
pub struct EncryptedGrid {
    pub cells: Vec<Vec<EncryptedCell>>,
}

impl View for EncryptedGrid {
    type V = Seq<Seq<EncryptedCell>>;

    open spec fn view(&self) -> Seq<Seq<EncryptedCell>> {
        enc_view_of(self.cells@)
    }
}

/// Every cell of `e` is a ciphertext made under `ck`.
pub open spec fn under_cells(e: Seq<Seq<EncryptedCell>>, ck: tfhe::ClientKey) -> bool {
    forall|i: int, j: int|
        0 <= i < e.len() && 0 <= j < e[i].len() ==> #[trigger] is_cipher(e[i][j], ck)
}

/// The plaintext board that `e` decrypts to, cell by cell, under `ck`.
pub open spec fn dec_cells(e: Seq<Seq<EncryptedCell>>, ck: tfhe::ClientKey) -> Seq<Seq<u8>> {
    Seq::new(e.len(), |i: int| Seq::new(e[i].len(), |j: int| cipher_value(e[i][j], ck)))
}

/// A borrow of the ciphertext at (x, y).
pub(crate) fn cell_at<'a>(g: &'a EncryptedGrid, x: usize, y: usize) -> (c: &'a EncryptedCell)
    requires
        x < g@.len(),
        y < g@[x as int].len(),
    ensures
        *c == g@[x as int][y as int],
{
    &g.cells[x][y]
}

/// The client of the protocol. It keeps the secret key and the plaintext
/// board; the board is never mutated after construction, so the client can
/// later verify a returned encrypted board by re-simulating from it.
pub struct Client {
    client_key: tfhe::ClientKey,
    grid: Grid,
}

impl Client {
    /// The secret key (never handed out; spec-level identity only).
    pub closed spec fn key(&self) -> tfhe::ClientKey {
        self.client_key
    }

    /// The plaintext board.
    pub closed spec fn plain(&self) -> Seq<Seq<u8>> {
        self.grid@
    }

    pub open spec fn wf(&self) -> bool {
        wf_grid(self.plain())
    }

    /// A client with a fresh secret key and a `rows` by `cols` board whose
    /// cells are drawn independently and uniformly from {0, 1}. Degenerate
    /// dimensions (a zero) are ruled out by precondition.
    pub fn new(rows: u32, cols: u32) -> (c: Client)
        requires
            rows >= 1,
            cols >= 1,
        ensures
            c.wf(),
            c.plain().len() == rows,
            forall|i: int| 0 <= i < c.plain().len() ==> #[trigger] c.plain()[i].len() == cols,
    {
        Client { client_key: gen_client_key(), grid: Grid::random(rows, cols) }
    }

    /// A client with a fresh secret key and the caller's own board.
    pub fn with_grid(grid: Grid) -> (c: Client)
        requires
            grid.wf(),
        ensures
            c.wf(),
            c.plain() == grid@,
    {
        Client { client_key: gen_client_key(), grid }
    }

    /// Encrypts every cell of the board independently under the secret key.
    /// The plaintext board is untouched; each call re-encrypts afresh. The
    /// result decrypts, under this client's key, to exactly the board.
    pub fn encrypt_only(&self) -> (e: EncryptedGrid)
        requires
            self.wf(),
        ensures
            under_cells(e@, self.key()),
            dec_cells(e@, self.key()) == self.plain(),
    {
        let rows = self.grid.rows();
        let mut out: Vec<Vec<EncryptedCell>> = Vec::new();
        let mut i: usize = 0;
        while i < rows
            invariant
                self.wf(),
                rows == self.plain().len(),
                i <= rows,
                out@.len() == i,
                forall|a: int|
                    0 <= a < i ==> #[trigger] out@[a]@.len() == self.plain()[a].len(),
                forall|a: int, b: int|
                    0 <= a < i && 0 <= b < out@[a]@.len()
                        ==> is_cipher(#[trigger] out@[a]@[b], self.key())
                            && cipher_value(out@[a]@[b], self.key()) == self.plain()[a][b],
            decreases rows - i,
        {
            let cols = self.grid.cols();
            proof {
                assert(self.plain()[i as int].len() == self.plain()[0].len());
            }
            let mut row: Vec<EncryptedCell> = Vec::new();
            let mut j: usize = 0;
            while j < cols
                invariant
                    self.wf(),
                    i < self.plain().len(),
                    cols == self.plain()[i as int].len(),
                    j <= cols,
                    row@.len() == j,
                    forall|b: int|
                        0 <= b < j
                            ==> is_cipher(#[trigger] row@[b], self.key())
                                && cipher_value(row@[b], self.key())
                                    == self.plain()[i as int][b],
                decreases cols - j,
            {
                let v = self.grid.cell(i, j);
                let c = encrypt_cell(v, &self.client_key);
                row.push(c);
                j = j + 1;
            }
            out.push(row);
            i = i + 1;
        }
        let e = EncryptedGrid { cells: out };
        proof {
            assert(dec_cells(e@, self.key()) =~~= self.plain());
        }
        e
    }

    /// Derives the evaluation key and encrypts the board: everything the
    /// server needs, and nothing that can decrypt.
    pub fn encrypt(&self) -> (r: (tfhe::ServerKey, EncryptedGrid))
        requires
            self.wf(),
        ensures
            compatible(r.0, self.key()),
            under_cells(r.1@, self.key()),
            dec_cells(r.1@, self.key()) == self.plain(),
    {
        let sk = gen_server_key(&self.client_key);
        let e = self.encrypt_only();
        (sk, e)
    }

    /// Decrypts a board cell by cell under the secret key. Decrypting
    /// ciphertexts of another key is a precondition violation of the
    /// scheme, hence ruled out here.
    pub fn decrypt(&self, e: EncryptedGrid) -> (r: Vec<Vec<u8>>)
        requires
            under_cells(e@, self.key()),
        ensures
            view_of(r@) == dec_cells(e@, self.key()),
    {
        let rows = e.cells.len();
        let mut out: Vec<Vec<u8>> = Vec::new();
        let mut i: usize = 0;
        while i < rows
            invariant
                under_cells(e@, self.key()),
                rows == e@.len(),
                i <= rows,
                out@.len() == i,
                forall|a: int|
                    0 <= a < i ==> #[trigger] out@[a]@ == dec_cells(e@, self.key())[a],
            decreases rows - i,
        {
            let cols = e.cells[i].len();
            let mut row: Vec<u8> = Vec::new();
            let mut j: usize = 0;
            while j < cols
                invariant
                    under_cells(e@, self.key()),
                    i < e@.len(),
                    cols == e@[i as int].len(),
                    j <= cols,
                    row@.len() == j,
                    forall|b: int|
                        0 <= b < j
                            ==> #[trigger] row@[b] == cipher_value(e@[i as int][b], self.key()),
                decreases cols - j,
            {
                let v = decrypt_cell(cell_at(&e, i, j), &self.client_key);
                row.push(v);
                j = j + 1;
            }
            proof {
                assert(row@ =~= dec_cells(e@, self.key())[i as int]);
            }
            out.push(row);
            i = i + 1;
        }
        proof {
            assert(view_of(out@) =~= dec_cells(e@, self.key()));
        }
        out
    }

    /// Decrypts `e` and compares it, cell for cell, against the board the
    /// reference simulator reaches after `steps` generations from this
    /// client's own board: true exactly when every cell (and the shape)
    /// matches. Client state is untouched.
    pub fn verify(&self, e: EncryptedGrid, steps: u32) -> (ok: bool)
        requires
            self.wf(),
            under_cells(e@, self.key()),
        ensures
            ok <==> dec_cells(e@, self.key()) == after_steps(self.plain(), steps as nat),
    {
        let expected = grid_after_steps(&self.grid, steps);
        let dec = self.decrypt(e);
        rows_equal(&dec, &expected)
    }
}

/// Whether the plain rows `a` are exactly the board `b`: same shape, same
/// cells.
fn rows_equal(a: &Vec<Vec<u8>>, b: &Grid) -> (r: bool)
    ensures
        r <==> view_of(a@) == b@,
{
    if a.len() != b.cells.len() {
        return false;
    }
    let mut i: usize = 0;
    while i < a.len()
        invariant
            a@.len() == b@.len(),
            i <= a@.len(),
            forall|x: int| 0 <= x < i ==> #[trigger] view_of(a@)[x] == b@[x],
        decreases a@.len() - i,
    {
        if a[i].len() != b.cells[i].len() {
            assert(view_of(a@)[i as int].len() != b@[i as int].len());
            return false;
        }
        let mut j: usize = 0;
        while j < a[i].len()
            invariant
                a@.len() == b@.len(),
                i < a@.len(),
                a@[i as int]@.len() == b@[i as int].len(),
                j <= a@[i as int]@.len(),
                forall|y: int| 0 <= y < j ==> #[trigger] view_of(a@)[i as int][y] == b@[i as int][y],
            decreases a@[i as int]@.len() - j,
        {
            if a[i][j] != b.cells[i][j] {
                assert(view_of(a@)[i as int][j as int] != b@[i as int][j as int]);
                return false;
            }
            j = j + 1;
        }
        proof {
            assert(view_of(a@)[i as int] =~= b@[i as int]);
        }
        i = i + 1;
    }
    proof {
        assert(view_of(a@) =~= b@);
    }
    true
}

} // verus!
