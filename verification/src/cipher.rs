//! The block cipher under the mode: AES, keyed with 128, 192 or 256 bits.
//!
//! The cipher itself is not verified here. Each AES permutation is a named,
//! uninterpreted function of key and block; the functions that call the
//! cipher are believed to return what that name stands for.

use vstd::prelude::*;
use cipher::generic_array::GenericArray;
use cipher::{BlockEncrypt, BlockEncryptMut, InnerIvInit, KeyInit};

verus! {

/// What AES-128 makes of `block` under `key`.
pub uninterp spec fn aes128_block(key: Seq<u8>, block: Seq<u8>) -> Seq<u8>;

/// What AES-192 makes of `block` under `key`.
pub uninterp spec fn aes192_block(key: Seq<u8>, block: Seq<u8>) -> Seq<u8>;

/// What AES-256 makes of `block` under `key`.
pub uninterp spec fn aes256_block(key: Seq<u8>, block: Seq<u8>) -> Seq<u8>;

/// The bytewise exclusive or of two blocks.
pub open spec fn xor_blocks(a: Seq<u8>, b: Seq<u8>) -> Seq<u8> {
    Seq::new(16, |i: int| a[i] ^ b[i])
}

/// Trusted: `aes::Aes128`, made with `KeyInit::new` from `key`, applied to a
/// copy of `block` with `BlockEncrypt::encrypt_block`. The contract only gives
/// the result its name.
#[verifier::external_body]
fn aes128_encrypt_block(key: &[u8; 16], block: &[u8; 16]) -> (out: [u8; 16])
    ensures
        out@ == aes128_block(key@, block@),
{
    let mut buf = GenericArray::clone_from_slice(block);
    aes::Aes128::new(GenericArray::from_slice(key)).encrypt_block(&mut buf);
    buf.into()
}

/// Trusted: `aes::Aes192`, made with `KeyInit::new` from `key`, applied to a
/// copy of `block` with `BlockEncrypt::encrypt_block`. The contract only gives
/// the result its name.
#[verifier::external_body]
fn aes192_encrypt_block(key: &[u8; 24], block: &[u8; 16]) -> (out: [u8; 16])
    ensures
        out@ == aes192_block(key@, block@),
{
    let mut buf = GenericArray::clone_from_slice(block);
    aes::Aes192::new(GenericArray::from_slice(key)).encrypt_block(&mut buf);
    buf.into()
}

/// Trusted: `aes::Aes256`, made with `KeyInit::new` from `key`, applied to a
/// copy of `block` with `BlockEncrypt::encrypt_block`. The contract only gives
/// the result its name.
#[verifier::external_body]
fn aes256_encrypt_block(key: &[u8; 32], block: &[u8; 16]) -> (out: [u8; 16])
    ensures
        out@ == aes256_block(key@, block@),
{
    let mut buf = GenericArray::clone_from_slice(block);
    aes::Aes256::new(GenericArray::from_slice(key)).encrypt_block(&mut buf);
    buf.into()
}

/// Trusted: `cbc::Encryptor` over `aes::Aes128`, made with
/// `InnerIvInit::inner_iv_init` from the keyed cipher and `iv`, run on one
/// block with `BlockEncryptMut::encrypt_blocks_mut`. CBC mode encrypts the
/// exclusive or of the block and the chaining value, which is what the
/// contract claims.
#[verifier::external_body]
fn aes128_cbc_encrypt_block(key: &[u8; 16], iv: &[u8; 16], block: &[u8; 16]) -> (out: [u8; 16])
    ensures
        out@ == aes128_block(key@, xor_blocks(iv@, block@)),
{
    let mut buf = [GenericArray::clone_from_slice(block)];
    let ciph = aes::Aes128::new(GenericArray::from_slice(key));
    cbc::Encryptor::inner_iv_init(ciph, GenericArray::from_slice(iv)).encrypt_blocks_mut(&mut buf);
    buf[0].into()
}

/// Trusted: `cbc::Encryptor` over `aes::Aes192`, made with
/// `InnerIvInit::inner_iv_init` from the keyed cipher and `iv`, run on one
/// block with `BlockEncryptMut::encrypt_blocks_mut`. CBC mode encrypts the
/// exclusive or of the block and the chaining value, which is what the
/// contract claims.
#[verifier::external_body]
fn aes192_cbc_encrypt_block(key: &[u8; 24], iv: &[u8; 16], block: &[u8; 16]) -> (out: [u8; 16])
    ensures
        out@ == aes192_block(key@, xor_blocks(iv@, block@)),
{
    let mut buf = [GenericArray::clone_from_slice(block)];
    let ciph = aes::Aes192::new(GenericArray::from_slice(key));
    cbc::Encryptor::inner_iv_init(ciph, GenericArray::from_slice(iv)).encrypt_blocks_mut(&mut buf);
    buf[0].into()
}

/// Trusted: `cbc::Encryptor` over `aes::Aes256`, made with
/// `InnerIvInit::inner_iv_init` from the keyed cipher and `iv`, run on one
/// block with `BlockEncryptMut::encrypt_blocks_mut`. CBC mode encrypts the
/// exclusive or of the block and the chaining value, which is what the
/// contract claims.
#[verifier::external_body]
fn aes256_cbc_encrypt_block(key: &[u8; 32], iv: &[u8; 16], block: &[u8; 16]) -> (out: [u8; 16])
    ensures
        out@ == aes256_block(key@, xor_blocks(iv@, block@)),
{
    let mut buf = [GenericArray::clone_from_slice(block)];
    let ciph = aes::Aes256::new(GenericArray::from_slice(key));
    cbc::Encryptor::inner_iv_init(ciph, GenericArray::from_slice(iv)).encrypt_blocks_mut(&mut buf);
    buf[0].into()
}

fn key_array<const N: usize>(key: &[u8]) -> (out: [u8; N])
    requires
        key@.len() == N,
    ensures
        out@ == key@,
{
    let mut out = [0u8; N];
    let mut i: usize = 0;
    while i < N
        invariant
            i <= N,
            key@.len() == N,
            forall|j: int| 0 <= j < i ==> out@[j] == key@[j],
        decreases N - i,
    {
        out[i] = key[i];
        i = i + 1;
    }
    assert(out@ =~= key@);
    out
}

/// A keyed AES permutation of 16-byte blocks.
#[derive(Clone, Copy)]
pub enum Cipher {
    Aes128([u8; 16]),
    Aes192([u8; 24]),
    Aes256([u8; 32]),
}

impl Cipher {
    /// Whether a key of `len` bytes selects one of the three ciphers.
    pub open spec fn key_len_ok(len: nat) -> bool {
        len == 16 || len == 24 || len == 32
    }

    /// The key.
    pub open spec fn key(&self) -> Seq<u8> {
        match *self {
            Cipher::Aes128(k) => k@,
            Cipher::Aes192(k) => k@,
            Cipher::Aes256(k) => k@,
        }
    }

    /// The keyed permutation.
    pub open spec fn permute(&self, block: Seq<u8>) -> Seq<u8> {
        match *self {
            Cipher::Aes128(k) => aes128_block(k@, block),
            Cipher::Aes192(k) => aes192_block(k@, block),
            Cipher::Aes256(k) => aes256_block(k@, block),
        }
    }

    /// The cipher that the length of `key` selects, if it selects one.
    pub fn new(key: &[u8]) -> (r: Option<Cipher>)
        ensures
            r is Some <==> Self::key_len_ok(key@.len()),
            r matches Some(c) ==> c.key() == key@,
    {
        if key.len() == 16 {
            Some(Cipher::Aes128(key_array::<16>(key)))
        } else if key.len() == 24 {
            Some(Cipher::Aes192(key_array::<24>(key)))
        } else if key.len() == 32 {
            Some(Cipher::Aes256(key_array::<32>(key)))
        } else {
            None
        }
    }

    /// Encrypts one block.
    pub fn encrypt_block(&self, block: &[u8; 16]) -> (out: [u8; 16])
        ensures
            out@ == self.permute(block@),
    {
        match self {
            Cipher::Aes128(k) => aes128_encrypt_block(k, block),
            Cipher::Aes192(k) => aes192_encrypt_block(k, block),
            Cipher::Aes256(k) => aes256_encrypt_block(k, block),
        }
    }

    /// One step of CBC mode: encrypts the exclusive or of `block` and the
    /// chaining value `iv`.
    pub fn cbc_encrypt_block(&self, iv: &[u8; 16], block: &[u8; 16]) -> (out: [u8; 16])
        ensures
            out@ == self.permute(xor_blocks(iv@, block@)),
    {
        match self {
            Cipher::Aes128(k) => aes128_cbc_encrypt_block(k, iv, block),
            Cipher::Aes192(k) => aes192_cbc_encrypt_block(k, iv, block),
            Cipher::Aes256(k) => aes256_cbc_encrypt_block(k, iv, block),
        }
    }
}

} // verus!
