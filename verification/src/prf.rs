//! The pseudorandom function of the mode: CBC-MAC with a zero initial value.

use vstd::prelude::*;
use crate::cipher::{xor_blocks, Cipher};

verus! {

/// The block of sixteen zero bytes.
pub open spec fn zero_block() -> Seq<u8> {
    Seq::new(16, |i: int| 0u8)
}

/// The length of the longest prefix of `len` bytes that is made of whole blocks.
pub open spec fn whole_blocks(len: nat) -> nat {
    (len - len % 16) as nat
}

/// The CBC-MAC of the whole blocks of `data` under `ciph`: the chaining value
/// starts at zero, and each block is xored into it and the result encrypted.
/// Bytes behind the last whole block do not count.
pub open spec fn cbc_mac(ciph: Cipher, data: Seq<u8>) -> Seq<u8>
    decreases data.len(),
{
    if data.len() < 16 {
        zero_block()
    } else {
        let full = whole_blocks(data.len()) as int;
        ciph.permute(
            xor_blocks(
                cbc_mac(ciph, data.subrange(0, full - 16)),
                data.subrange(full - 16, full),
            ),
        )
    }
}

/// The MAC of `data` is that of its whole blocks.
pub proof fn lemma_cbc_mac_whole_blocks(ciph: Cipher, data: Seq<u8>)
    ensures
        cbc_mac(ciph, data) == cbc_mac(ciph, data.subrange(0, whole_blocks(data.len()) as int)),
{
    let full = whole_blocks(data.len()) as int;
    let whole = data.subrange(0, full);
    if data.len() >= 16 {
        assert(whole.len() == full);
        assert(whole_blocks(whole.len()) == full);
        assert(whole.subrange(0, full - 16) =~= data.subrange(0, full - 16));
        assert(whole.subrange(full - 16, full) =~= data.subrange(full - 16, full));
    }
}

/// A CBC-MAC in progress.
#[derive(Clone, Copy)]
pub struct Prf {
    ciph: Cipher,
    /// The chaining value: the MAC of the whole blocks taken in so far.
    state: [u8; 16],
    /// The bytes taken in behind the last whole block.
    buf: [u8; 16],
    offset: usize,
    absorbed: Ghost<Seq<u8>>,
}

impl Prf {
    /// The cipher under the MAC.
    pub closed spec fn cipher(&self) -> Cipher {
        self.ciph
    }

    /// All bytes taken in so far.
    pub closed spec fn absorbed(&self) -> Seq<u8> {
        self.absorbed@
    }

    /// The invariant: the state is the MAC of what was taken in, and the
    /// buffer holds the bytes behind the last whole block.
    pub closed spec fn wf(&self) -> bool {
        &&& self.offset < 16
        &&& self.offset == self.absorbed@.len() % 16
        &&& self.state@ == cbc_mac(self.ciph, self.absorbed@)
        &&& forall|j: int|
            0 <= j < self.offset ==> self.buf@[j] == self.absorbed@[self.absorbed@.len()
                - self.offset + j]
    }

    /// A MAC under `ciph` that has taken in nothing.
    pub fn new(ciph: &Cipher) -> (prf: Prf)
        ensures
            prf.wf(),
            prf.cipher() == *ciph,
            prf.absorbed() == Seq::<u8>::empty(),
    {
        let prf = Prf {
            ciph: *ciph,
            state: [0u8; 16],
            buf: [0u8; 16],
            offset: 0,
            absorbed: Ghost(Seq::empty()),
        };
        assert(prf.state@ =~= zero_block());
        prf
    }

    /// Takes in `data`.
    pub fn update(&mut self, data: &[u8])
        requires
            old(self).wf(),
        ensures
            final(self).wf(),
            final(self).cipher() == old(self).cipher(),
            final(self).absorbed() == old(self).absorbed() + data@,
    {
        let mut i: usize = 0;
        assert(self.absorbed@ + data@.take(0) =~= self.absorbed@);
        while i < data.len()
            invariant
                i <= data@.len(),
                self.wf(),
                self.ciph == old(self).ciph,
                self.absorbed@ == old(self).absorbed@ + data@.take(i as int),
            decreases data.len() - i,
        {
            let byte = data[i];
            let ghost before = self.absorbed@;
            let ghost after = before.push(byte);
            self.buf[self.offset] = byte;
            self.offset = self.offset + 1;
            self.absorbed = Ghost(after);
            proof {
                assert(after =~= old(self).absorbed@ + data@.take(i + 1));
                if self.offset < 16 {
                    let full = whole_blocks(after.len()) as int;
                    assert(full == whole_blocks(before.len()));
                    if after.len() >= 16 {
                        assert(after.subrange(0, full - 16) =~= before.subrange(0, full - 16));
                        assert(after.subrange(full - 16, full) =~= before.subrange(
                            full - 16,
                            full,
                        ));
                    }
                }
            }
            if self.offset == 16 {
                proof {
                    let full = after.len() as int;
                    assert(whole_blocks(after.len()) == full);
                    lemma_cbc_mac_whole_blocks(self.ciph, before);
                    assert(after.subrange(0, full - 16) =~= before.subrange(
                        0,
                        whole_blocks(before.len()) as int,
                    ));
                    assert(after.subrange(full - 16, full) =~= self.buf@);
                }
                self.state = self.ciph.cbc_encrypt_block(&self.state, &self.buf);
                self.offset = 0;
            }
            i = i + 1;
        }
        assert(data@.take(data@.len() as int) =~= data@);
    }

    /// The MAC of what was taken in, which must be a whole number of blocks.
    pub fn output(&self) -> (out: [u8; 16])
        requires
            self.wf(),
            self.absorbed().len() % 16 == 0,
        ensures
            out@ == cbc_mac(self.cipher(), self.absorbed()),
    {
        self.state
    }
}

} // verus!
