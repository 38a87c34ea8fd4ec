//! A Game of Life that an untrusted party can advance without seeing it.
//!
//! A client holds a plaintext board and the secret key; it hands out an
//! evaluation key and a cell-by-cell encryption of the board. A server,
//! holding only those, advances the encrypted board generation by
//! generation with homomorphic operations, never decrypting anything. The
//! client alone decrypts the returned board and checks it against its own
//! plaintext reference simulation.

pub mod client;
pub mod fhe;
pub mod grid;
pub mod laws;
pub mod life;
pub mod server;
