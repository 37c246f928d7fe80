//! Big-endian byte strings of machine numbers, and the expansion of one PRF
//! output into the byte string `S` of a round.

use vstd::prelude::*;
use crate::cipher::{xor_blocks, Cipher};
use crate::numeral::{bytes_as_numerals, str_bytes, str_radix};

verus! {

/// The `len` least significant bytes of `value`, most significant first.
pub fn be_bytes(value: usize, len: usize) -> (out: Vec<u8>)
    ensures
        out@ == str_bytes(value as nat, len as nat),
        out@.len() == len,
{
    let mut out: Vec<u8> = Vec::new();
    let mut i: usize = 0;
    while i < len
        invariant
            i <= len,
            out@.len() == i,
        decreases len - i,
    {
        out.push(0u8);
        i = i + 1;
    }
    let mut rem: usize = value;
    let mut pos: usize = len;
    assert(str_radix(value as nat, 256, len as nat) =~= str_radix(rem as nat, 256, pos as nat)
        + bytes_as_numerals(out@.skip(pos as int)));
    while pos > 0
        invariant
            pos <= len,
            out@.len() == len,
            str_radix(value as nat, 256, len as nat) == str_radix(rem as nat, 256, pos as nat)
                + bytes_as_numerals(out@.skip(pos as int)),
        decreases pos,
    {
        let ghost before = out@;
        let ghost head = str_radix((rem / 256) as nat, 256, (pos - 1) as nat);
        pos = pos - 1;
        out.set(pos, (rem % 256) as u8);
        proof {
            assert(str_radix(rem as nat, 256, (pos + 1) as nat) == head.push((rem % 256) as nat));
            assert(bytes_as_numerals(out@.skip(pos as int)) =~= seq![(rem % 256) as nat]
                + bytes_as_numerals(before.skip(pos + 1)));
            assert(head.push((rem % 256) as nat) + bytes_as_numerals(before.skip(pos + 1)) =~= head
                + bytes_as_numerals(out@.skip(pos as int)));
        }
        rem = rem / 256;
    }
    assert(out@ =~= str_bytes(value as nat, len as nat));
    out
}

/// Block `j` of the expansion of `r`: `r` itself, then the encryption of `r`
/// xored with the number `j` as sixteen bytes, most significant first.
pub open spec fn s_block(ciph: Cipher, r: Seq<u8>, j: nat) -> Seq<u8> {
    if j == 0 {
        r
    } else {
        ciph.permute(xor_blocks(r, str_bytes(j, 16)))
    }
}

/// The first `d` bytes of `r || E(r ^ 1) || E(r ^ 2) || ...`.
pub open spec fn expand_s(ciph: Cipher, r: Seq<u8>, d: nat) -> Seq<u8> {
    Seq::new(d, |k: int| s_block(ciph, r, (k / 16) as nat)[k % 16])
}

/// Expands the PRF output `r` to `d` bytes.
pub fn generate_s(ciph: &Cipher, r: &[u8; 16], d: usize) -> (s: Vec<u8>)
    ensures
        s@ == expand_s(*ciph, r@, d as nat),
{
    let mut out: Vec<u8> = Vec::new();
    let mut cur: [u8; 16] = *r;
    let mut k: usize = 0;
    assert(out@ =~= expand_s(*ciph, r@, 0));
    while k < d
        invariant
            k <= d,
            out@ == expand_s(*ciph, r@, k as nat),
            k % 16 != 0 ==> cur@ == s_block(*ciph, r@, (k / 16) as nat),
            k == 0 ==> cur@ == r@,
        decreases d - k,
    {
        if k % 16 == 0 && k > 0 {
            let ctr = be_bytes(k / 16, 16);
            let mut block: [u8; 16] = *r;
            let mut i: usize = 0;
            while i < 16
                invariant
                    i <= 16,
                    ctr@.len() == 16,
                    forall|j: int| 0 <= j < i ==> block@[j] == r@[j] ^ ctr@[j],
                decreases 16 - i,
            {
                block[i] = r[i] ^ ctr[i];
                i = i + 1;
            }
            assert(block@ =~= xor_blocks(r@, ctr@));
            cur = ciph.encrypt_block(&block);
        }
        out.push(cur[k % 16]);
        k = k + 1;
        assert(out@ =~= expand_s(*ciph, r@, k as nat));
    }
    out
}

} // verus!
