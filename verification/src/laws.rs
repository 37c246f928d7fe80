//! What holds of the engine for every key, radix, tweak and numeral string.

use vstd::prelude::*;
use vstd::arithmetic::div_mod::*;
use vstd::arithmetic::power::*;
use crate::cipher::Cipher;
use crate::domain::{byte_len, spec_b};
use crate::ff1::{halves, spec_decrypt, spec_encrypt, Params};
use crate::numeral::{
    add_mod, lemma_str_radix_shape, lemma_sub_undoes_add, num_radix, sub_mod, valid_numerals,
};

verus! {

/// After `k` rounds of encryption both halves are valid, and their lengths
/// are those that round `k` expects.
pub proof fn lemma_enc_rounds_shape(p: Params, k: nat, ab: (Seq<nat>, Seq<nat>))
    requires
        p.radix > 0,
        ab.0.len() == p.u(),
        ab.1.len() == p.v(),
        valid_numerals(ab.0, p.radix),
        valid_numerals(ab.1, p.radix),
    ensures
        p.enc_rounds(k, ab).0.len() == p.round_len(k),
        p.enc_rounds(k, ab).1.len() == p.round_len(k + 1),
        valid_numerals(p.enc_rounds(k, ab).0, p.radix),
        valid_numerals(p.enc_rounds(k, ab).1, p.radix),
    decreases k,
{
    if k > 0 {
        let i = (k - 1) as nat;
        let e = p.enc_rounds(i, ab);
        lemma_enc_rounds_shape(p, i, ab);
        let m = p.round_len(i);
        let c = add_mod(num_radix(e.0, p.radix), p.round_y(i, e.1), p.radix, m);
        lemma_str_radix_shape(c, p.radix, m);
    }
}

/// The rounds of decryption undo the rounds of encryption.
pub proof fn lemma_dec_undoes_enc(p: Params, k: nat, ab: (Seq<nat>, Seq<nat>))
    requires
        p.radix > 0,
        ab.0.len() == p.u(),
        ab.1.len() == p.v(),
        valid_numerals(ab.0, p.radix),
        valid_numerals(ab.1, p.radix),
    ensures
        p.dec_rounds(k, p.enc_rounds(k, ab)) == ab,
    decreases k,
{
    if k > 0 {
        let i = (k - 1) as nat;
        let e = p.enc_rounds(i, ab);
        lemma_enc_rounds_shape(p, i, ab);
        lemma_sub_undoes_add(e.0, p.round_y(i, e.1), p.radix);
        assert(p.dec_round(i, p.enc_round(i, e)) == e);
        lemma_dec_undoes_enc(p, i, ab);
    }
}

/// After the rounds of decryption the halves have the lengths of a split,
/// unless a single round meets halves that it does not expect.
pub proof fn lemma_dec_rounds_len(p: Params, k: nat, ab: (Seq<nat>, Seq<nat>))
    requires
        p.radix > 0,
        k == 0 ==> ab.0.len() == p.u() && ab.1.len() == p.v(),
        k == 1 ==> ab.0.len() == p.v(),
    ensures
        p.dec_rounds(k, ab).0.len() == p.u(),
        p.dec_rounds(k, ab).1.len() == p.v(),
    decreases k,
{
    if k > 0 {
        let i = (k - 1) as nat;
        let m = p.round_len(i);
        let c = sub_mod(num_radix(ab.1, p.radix), p.round_y(i, ab.0), p.radix, m);
        lemma_str_radix_shape(c, p.radix, m);
        lemma_dec_rounds_len(p, i, p.dec_round(i, ab));
    }
}

/// After the rounds of decryption both halves are valid.
pub proof fn lemma_dec_rounds_valid(p: Params, k: nat, ab: (Seq<nat>, Seq<nat>))
    requires
        p.radix > 0,
        valid_numerals(ab.0, p.radix),
        k == 0 ==> valid_numerals(ab.1, p.radix),
    ensures
        valid_numerals(p.dec_rounds(k, ab).0, p.radix),
        valid_numerals(p.dec_rounds(k, ab).1, p.radix),
    decreases k,
{
    if k > 0 {
        let i = (k - 1) as nat;
        let m = p.round_len(i);
        let c = sub_mod(num_radix(ab.1, p.radix), p.round_y(i, ab.0), p.radix, m);
        lemma_str_radix_shape(c, p.radix, m);
        lemma_dec_rounds_valid(p, i, p.dec_round(i, ab));
    }
}

/// Decryption undoes encryption: for a valid numeral string `x`, decrypting
/// its ciphertext under the same key, radix, rounds and tweak gives `x`.
/// With an odd number of rounds this holds of strings of even length.
pub proof fn law_round_trip(ciph: Cipher, radix: nat, rounds: nat, tweak: Seq<u8>, x: Seq<nat>)
    requires
        radix > 0,
        valid_numerals(x, radix),
        rounds % 2 == 0 || x.len() % 2 == 0,
    ensures
        spec_decrypt(ciph, radix, rounds, tweak, spec_encrypt(ciph, radix, rounds, tweak, x)) == x,
{
    let p = Params { ciph, radix, tweak, n: x.len() };
    let start = halves(x);
    let e = p.enc_rounds(rounds, start);
    let c = e.0 + e.1;
    lemma_enc_rounds_shape(p, rounds, start);
    lemma_dec_undoes_enc(p, rounds, start);
    assert(c.len() == x.len());
    assert(c.take((c.len() / 2) as int) =~= e.0);
    assert(c.skip((c.len() / 2) as int) =~= e.1);
    assert(halves(c) == e);
    assert(start.0 + start.1 =~= x);
}

/// Encryption keeps the shape: the ciphertext of a valid numeral string has
/// the same length and is valid for the radix.
pub proof fn law_encrypt_keeps_shape(
    ciph: Cipher,
    radix: nat,
    rounds: nat,
    tweak: Seq<u8>,
    x: Seq<nat>,
)
    requires
        radix > 0,
        valid_numerals(x, radix),
    ensures
        spec_encrypt(ciph, radix, rounds, tweak, x).len() == x.len(),
        valid_numerals(spec_encrypt(ciph, radix, rounds, tweak, x), radix),
{
    let p = Params { ciph, radix, tweak, n: x.len() };
    lemma_enc_rounds_shape(p, rounds, halves(x));
}

/// Decryption keeps the length, unless it runs a single round on a string of
/// odd length.
pub proof fn law_decrypt_keeps_length(
    ciph: Cipher,
    radix: nat,
    rounds: nat,
    tweak: Seq<u8>,
    x: Seq<nat>,
)
    requires
        radix > 0,
        rounds != 1 || x.len() % 2 == 0,
    ensures
        spec_decrypt(ciph, radix, rounds, tweak, x).len() == x.len(),
{
    let p = Params { ciph, radix, tweak, n: x.len() };
    lemma_dec_rounds_len(p, rounds, halves(x));
}

/// Decryption keeps validity: the plaintext of a valid numeral string is
/// valid for the radix.
pub proof fn law_decrypt_keeps_validity(
    ciph: Cipher,
    radix: nat,
    rounds: nat,
    tweak: Seq<u8>,
    x: Seq<nat>,
)
    requires
        radix > 0,
        valid_numerals(x, radix),
    ensures
        valid_numerals(spec_decrypt(ciph, radix, rounds, tweak, x), radix),
{
    let p = Params { ciph, radix, tweak, n: x.len() };
    lemma_dec_rounds_valid(p, rounds, halves(x));
}

/// The tweak does not touch the shape: under any two tweaks the ciphertexts
/// of a valid numeral string have the same length and are both valid.
pub proof fn law_tweak_keeps_shape(
    ciph: Cipher,
    radix: nat,
    rounds: nat,
    tweak1: Seq<u8>,
    tweak2: Seq<u8>,
    x: Seq<nat>,
)
    requires
        radix > 0,
        valid_numerals(x, radix),
    ensures
        spec_encrypt(ciph, radix, rounds, tweak1, x).len() == spec_encrypt(
            ciph,
            radix,
            rounds,
            tweak2,
            x,
        ).len(),
        valid_numerals(spec_encrypt(ciph, radix, rounds, tweak1, x), radix),
        valid_numerals(spec_encrypt(ciph, radix, rounds, tweak2, x), radix),
{
    law_encrypt_keeps_shape(ciph, radix, rounds, tweak1, x);
    law_encrypt_keeps_shape(ciph, radix, rounds, tweak2, x);
}

/// The byte length of `n` is the least `b` with `256^b > n`.
pub proof fn lemma_byte_len_is_least(n: nat)
    ensures
        pow(256, byte_len(n)) > n,
        byte_len(n) > 0 ==> pow(256, (byte_len(n) - 1) as nat) <= n,
    decreases n,
{
    if n == 0 {
        lemma_pow0(256);
    } else {
        let q = n / 256;
        let c = byte_len(q);
        lemma_byte_len_is_least(q);
        lemma_pow_adds(256, 1, c);
        lemma_pow1(256);
        lemma_fundamental_div_mod(n as int, 256);
        lemma_mod_bound(n as int, 256);
        if c == 0 {
            lemma_pow0(256);
        } else {
            lemma_pow_adds(256, 1, (c - 1) as nat);
        }
    }
}

/// The byte length `b` of a half is `ceil(v * log2(radix) / 8)`: the least
/// `b` with `256^b >= radix^v`.
pub proof fn law_b_is_ceiling(radix: nat, v: nat)
    requires
        radix > 0,
    ensures
        pow(256, spec_b(radix, v)) >= pow(radix as int, v),
        spec_b(radix, v) > 0 ==> pow(256, (spec_b(radix, v) - 1) as nat) < pow(radix as int, v),
{
    lemma_pow_positive(radix as int, v);
    lemma_byte_len_is_least((pow(radix as int, v) - 1) as nat);
}

} // verus!
