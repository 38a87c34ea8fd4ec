//! Trusted bindings to the homomorphic-encryption scheme.
//!
//! The key types are opaque outside types; a ciphertext is held inside
//! [`EncryptedCell`], whose content Verus never sees. What a ciphertext
//! holds is modelled by the uninterpreted functions below, which name
//! results of the scheme's own operations. Every homomorphic operation
//! needs an evaluation key to be active in the calling thread; an
//! [`EvalContext`] value witnesses that activation, and every homomorphic
//! wrapper takes one.

use vstd::prelude::*;
use tfhe::prelude::{FheDecrypt, FheEncrypt, FheEq, FheTryTrivialEncrypt, IfThenElse};

verus! {

#[verifier::external_type_specification]
#[verifier::external_body]
pub struct ExClientKey(tfhe::ClientKey);

#[verifier::external_type_specification]
#[verifier::external_body]
pub struct ExServerKey(tfhe::ServerKey);

#[verifier::external_type_specification]
#[verifier::external_body]
pub struct ExFheBool(tfhe::FheBool);

/// One cell's ciphertext: an encrypted 4-bit unsigned integer. A cell of
/// the board only ever encodes 0 or 1, but the encrypted neighbour count
/// is accumulated in the same domain and temporarily reaches 8. The
/// ciphertext itself is opaque: everything stated about it goes through
/// the uninterpreted functions below.
#[verifier::external_body]
pub struct EncryptedCell {
    inner: tfhe::FheUint4,
}

/// That `sk` is the evaluation key derived from `ck`: what
/// `tfhe::ServerKey::new` establishes. Operating under `sk` on ciphertexts
/// of any other client key is a precondition violation of the scheme and
/// nothing is stated of it.
pub uninterp spec fn compatible(sk: tfhe::ServerKey, ck: tfhe::ClientKey) -> bool;

/// That `c` holds a ciphertext of the scheme made under `ck`'s key and
/// parameters: what encryption, trivial encryption and the homomorphic
/// operations under a compatible evaluation key produce.
pub uninterp spec fn is_cipher(c: EncryptedCell, ck: tfhe::ClientKey) -> bool;

/// The value that the scheme's decryption returns for `c` under `ck`: a
/// function of the ciphertext and the key alone.
pub uninterp spec fn cipher_value(c: EncryptedCell, ck: tfhe::ClientKey) -> u8;

/// That `b` is a boolean ciphertext of the scheme made under `ck`'s key
/// and parameters.
pub uninterp spec fn is_bool_cipher(b: tfhe::FheBool, ck: tfhe::ClientKey) -> bool;

/// The value that `tfhe::FheBool::decrypt` returns for `b` under `ck`.
pub uninterp spec fn bool_cipher_value(b: tfhe::FheBool, ck: tfhe::ClientKey) -> bool;

/// Witness that an evaluation key is the active key of the current thread.
/// The only constructor is [`activate`], which installs the key before
/// handing the witness out; the homomorphic wrappers take the witness so
/// that they are never reached without it, since the scheme panics on a
/// missing key rather than computing garbage.
pub struct EvalContext {
    key: tfhe::ServerKey,
}

impl EvalContext {
    /// The evaluation key this context activated.
    pub closed spec fn key_spec(&self) -> tfhe::ServerKey {
        self.key
    }
}

/// Relies on `tfhe::ClientKey::generate` with the scheme's default
/// configuration. Nothing is stated of the fresh key: it is random.
#[verifier::external_body]
pub(crate) fn gen_client_key() -> tfhe::ClientKey {
    let config = tfhe::ConfigBuilder::default().build();
    tfhe::ClientKey::generate(config)
}

/// Relies on `tfhe::ServerKey::new`: the returned evaluation key is derived
/// from `ck`, carries no decryption capability, and is the key under which
/// homomorphic operations on `ck`'s ciphertexts are correct.
#[verifier::external_body]
pub(crate) fn gen_server_key(ck: &tfhe::ClientKey) -> (sk: tfhe::ServerKey)
    ensures
        compatible(sk, *ck),
{
    tfhe::ServerKey::new(ck)
}

/// Relies on `tfhe::set_server_key`: it makes `sk` the active key of the
/// calling thread, which every later homomorphic call of this thread uses.
#[verifier::external_body]
pub(crate) fn activate(sk: &tfhe::ServerKey) -> (ctx: EvalContext)
    ensures
        ctx.key_spec() == *sk,
{
    tfhe::set_server_key(sk.clone());
    EvalContext { key: sk.clone() }
}

/// Relies on `tfhe::FheUint4::encrypt` and the scheme's correctness: a
/// fresh encryption of `v < 16` under `ck` decrypts to `v` under `ck`.
#[verifier::external_body]
pub(crate) fn encrypt_cell(v: u8, ck: &tfhe::ClientKey) -> (c: EncryptedCell)
    requires
        v <= 15,
    ensures
        is_cipher(c, *ck),
        cipher_value(c, *ck) == v,
{
    EncryptedCell { inner: tfhe::FheUint4::encrypt(v, ck) }
}

/// Relies on `tfhe::FheUint4::decrypt` under the secret key;
/// `cipher_value` names exactly its result.
#[verifier::external_body]
pub(crate) fn decrypt_cell(c: &EncryptedCell, ck: &tfhe::ClientKey) -> (v: u8)
    requires
        is_cipher(*c, *ck),
    ensures
        v == cipher_value(*c, *ck),
{
    c.inner.decrypt(ck)
}

/// Relies on `tfhe::FheUint4::try_encrypt_trivial`: under an active
/// evaluation key it encodes the public constant `v < 16` as a ciphertext
/// that decrypts to `v` under any client key the active key is derived
/// from.
#[verifier::external_body]
pub(crate) fn trivial_cell(ctx: &EvalContext, v: u8) -> (c: EncryptedCell)
    requires
        v <= 15,
    ensures
        forall|ck: tfhe::ClientKey|
            #[trigger] compatible(ctx.key_spec(), ck)
                ==> is_cipher(c, ck) && cipher_value(c, ck) == v,
{
    EncryptedCell { inner: tfhe::FheUint4::try_encrypt_trivial(v).unwrap() }
}

/// Relies on homomorphic addition of `tfhe::FheUint4` under the active
/// evaluation key: for ciphertexts of the matching client key the result
/// decrypts to the sum of the operands' values, wrapping modulo 16.
#[verifier::external_body]
pub(crate) fn add_cells(
    ctx: &EvalContext,
    a: &EncryptedCell,
    b: &EncryptedCell,
) -> (r: EncryptedCell)
    ensures
        forall|ck: tfhe::ClientKey|
            #[trigger] compatible(ctx.key_spec(), ck) && is_cipher(*a, ck) && is_cipher(*b, ck)
                ==> is_cipher(r, ck)
                    && cipher_value(r, ck) == (cipher_value(*a, ck) + cipher_value(*b, ck)) % 16,
{
    EncryptedCell { inner: &a.inner + &b.inner }
}

/// Relies on the homomorphic equality test of `tfhe::FheUint4` under the
/// active evaluation key: the encrypted boolean it returns decrypts to
/// whether the operands' values are equal.
#[verifier::external_body]
pub(crate) fn eq_cells(
    ctx: &EvalContext,
    a: &EncryptedCell,
    b: &EncryptedCell,
) -> (r: tfhe::FheBool)
    ensures
        forall|ck: tfhe::ClientKey|
            #[trigger] compatible(ctx.key_spec(), ck) && is_cipher(*a, ck) && is_cipher(*b, ck)
                ==> is_bool_cipher(r, ck)
                    && (bool_cipher_value(r, ck) <==> cipher_value(*a, ck) == cipher_value(
                        *b,
                        ck,
                    )),
{
    a.inner.eq(&b.inner)
}

/// Relies on the homomorphic OR of `tfhe::FheBool` under the active
/// evaluation key: the result decrypts to the disjunction of the operands'
/// values.
#[verifier::external_body]
pub(crate) fn or_bools(
    ctx: &EvalContext,
    a: &tfhe::FheBool,
    b: &tfhe::FheBool,
) -> (r: tfhe::FheBool)
    ensures
        forall|ck: tfhe::ClientKey|
            #[trigger] compatible(ctx.key_spec(), ck) && is_bool_cipher(*a, ck) && is_bool_cipher(
                *b,
                ck,
            )
                ==> is_bool_cipher(r, ck)
                    && (bool_cipher_value(r, ck) <==> (bool_cipher_value(*a, ck)
                        || bool_cipher_value(*b, ck))),
{
    a | b
}

/// Relies on `tfhe::FheBool::if_then_else` under the active evaluation key:
/// the encrypted selection decrypts to the first operand's value where the
/// condition's value is true, and to the second's otherwise.
#[verifier::external_body]
pub(crate) fn select_cell(
    ctx: &EvalContext,
    cond: &tfhe::FheBool,
    a: &EncryptedCell,
    b: &EncryptedCell,
) -> (r: EncryptedCell)
    ensures
        forall|ck: tfhe::ClientKey|
            #[trigger] compatible(ctx.key_spec(), ck) && is_bool_cipher(*cond, ck) && is_cipher(
                *a,
                ck,
            ) && is_cipher(*b, ck)
                ==> is_cipher(r, ck)
                    && cipher_value(r, ck) == (if bool_cipher_value(*cond, ck) {
                        cipher_value(*a, ck)
                    } else {
                        cipher_value(*b, ck)
                    }),
{
    EncryptedCell { inner: cond.if_then_else(&a.inner, &b.inner) }
}

/// Relies on `tfhe::FheUint4`'s `Clone`: the copy is the same ciphertext.
#[verifier::external_body]
pub(crate) fn clone_cell(c: &EncryptedCell) -> (r: EncryptedCell)
    ensures
        r == *c,
{
    EncryptedCell { inner: c.inner.clone() }
}

} // verus!
