//! The protocol's laws: what the contracts of client and server compose to.

use vstd::prelude::*;
use crate::client::{Client, EncryptedGrid, dec_cells, under_cells};
use crate::fhe::{EncryptedCell, compatible};
use crate::grid::{bits, view_of, wf_grid};
use crate::life::after_steps;

verus! {

/// Round trip: an encrypted board that decrypts, under the client's key,
/// to the client's own board — which `Client::encrypt_only` ensures of its
/// result — is decrypted by `Client::decrypt` back to exactly that board.
pub proof fn lemma_round_trip(c: Client, e: EncryptedGrid, d: Vec<Vec<u8>>, g: Seq<Seq<u8>>)
    requires
        c.plain() == g,
        under_cells(e@, c.key()),
        dec_cells(e@, c.key()) == c.plain(),
        view_of(d@) == dec_cells(e@, c.key()),
    ensures
        view_of(d@) == g,
{
}

/// Functional equivalence: take a well-formed board `g`, an evaluation key
/// compatible with `ck`, and an encryption `eg` of `g` under `ck` — what
/// `Client::encrypt` ensures. Any board `out` that `Server::run`'s contract
/// admits for `steps` steps on `eg` decrypts under `ck` to exactly the
/// board the reference simulator reaches after `steps` generations from
/// `g`; `Client::verify` therefore accepts it.
pub proof fn lemma_functional_equivalence(
    ck: tfhe::ClientKey,
    sk: tfhe::ServerKey,
    g: Seq<Seq<u8>>,
    eg: Seq<Seq<EncryptedCell>>,
    out: Seq<Seq<EncryptedCell>>,
    steps: nat,
)
    requires
        wf_grid(g),
        compatible(sk, ck),
        under_cells(eg, ck),
        dec_cells(eg, ck) == g,
        compatible(sk, ck) && under_cells(eg, ck) && bits(dec_cells(eg, ck)) ==> dec_cells(
            out,
            ck,
        ) == after_steps(dec_cells(eg, ck), steps),
    ensures
        dec_cells(out, ck) == after_steps(g, steps),
{
    assert(bits(dec_cells(eg, ck)));
}

/// Order independence: any two boards that `Server::run`'s contract admits
/// for the same evaluation key, the same encrypted board and the same step
/// count decrypt to the same plaintext board, however the per-cell work
/// was scheduled.
pub proof fn lemma_run_decrypts_uniquely(
    ck: tfhe::ClientKey,
    sk: tfhe::ServerKey,
    eg: Seq<Seq<EncryptedCell>>,
    out1: Seq<Seq<EncryptedCell>>,
    out2: Seq<Seq<EncryptedCell>>,
    steps: nat,
)
    requires
        compatible(sk, ck),
        under_cells(eg, ck),
        bits(dec_cells(eg, ck)),
        dec_cells(out1, ck) == after_steps(dec_cells(eg, ck), steps),
        dec_cells(out2, ck) == after_steps(dec_cells(eg, ck), steps),
    ensures
        dec_cells(out1, ck) == dec_cells(out2, ck),
{
}

} // verus!
