//! A numeral string over radix 2, made from bytes and turned back into bytes
//! with the least significant bit of each byte first.

use vstd::prelude::*;
use crate::flexible::{numerals_of, FlexibleNumeralString};
use crate::numeral::NumeralString;

verus! {

/// The byte whose bits, least significant first, are the low bits of `bits`.
pub open spec fn pack_bits(bits: Seq<u16>) -> u8
    decreases bits.len(),
{
    if bits.len() == 0 {
        0u8
    } else {
        (pack_bits(bits.skip(1)) << 1u8) | ((bits[0] & 1) as u8)
    }
}

/// The bits of `byte`, least significant first.
pub open spec fn unpack_bits(byte: u8) -> Seq<u16> {
    Seq::new(8, |j: int| ((byte >> (j as u8)) & 1) as u16)
}

/// Packing the bits of a byte from bit `k` on gives the byte shifted down by
/// `k`.
pub proof fn lemma_pack_suffix(byte: u8, k: nat)
    requires
        k < 8,
    ensures
        pack_bits(unpack_bits(byte).skip(k as int)) == byte >> (k as u8),
    decreases 8 - k,
{
    let bits = unpack_bits(byte).skip(k as int);
    let rest = bits.skip(1);
    let low: u16 = ((byte >> (k as u8)) & 1) as u16;
    let sh: u8 = k as u8;
    assert(bits[0] == low);
    assert(rest =~= unpack_bits(byte).skip((k + 1) as int));
    if k == 7 {
        assert(rest.len() == 0);
        assert(pack_bits(rest) == 0u8);
        assert((0u8 << 1u8) | ((((byte >> 7u8) & 1) as u16 & 1) as u8) == byte >> 7u8)
            by (bit_vector);
    } else {
        lemma_pack_suffix(byte, k + 1);
        let up: u8 = (k + 1) as u8;
        assert(((byte >> up) << 1u8) | ((((byte >> sh) & 1) as u16 & 1) as u8) == byte >> sh)
            by (bit_vector)
            requires
                sh < 7,
                up == sh + 1,
        ;
    }
}

/// Turning bytes into bits and the bits back into bytes gives the bytes:
/// `bits` is what `from_bytes_le` makes of `s`, and `out` is what
/// `to_bytes_le` makes of `bits`.
pub proof fn law_bytes_round_trip(s: Seq<u8>, bits: Seq<u16>, out: Seq<u8>)
    requires
        bits.len() == 8 * s.len(),
        forall|k: int|
            0 <= k < bits.len() ==> #[trigger] bits[k] == ((s[k / 8] >> ((k % 8) as u8)) & 1) as u16,
        out.len() == (bits.len() + 7) / 8,
        forall|k: int|
            0 <= k < out.len() ==> #[trigger] out[k] == pack_bits(
                bits.subrange(
                    8 * k,
                    if 8 * k + 8 <= bits.len() {
                        8 * k + 8
                    } else {
                        bits.len() as int
                    },
                ),
            ),
    ensures
        out == s,
{
    assert(out.len() == s.len());
    assert forall|i: int| 0 <= i < out.len() implies out[i] == s[i] by {
        let chunk = bits.subrange(8 * i, 8 * i + 8);
        assert forall|j: int| 0 <= j < 8 implies chunk[j] == unpack_bits(s[i])[j] by {
            assert(chunk[j] == bits[8 * i + j]);
            assert((8 * i + j) / 8 == i);
            assert((8 * i + j) % 8 == j);
        }
        assert(chunk =~= unpack_bits(s[i]));
        assert(unpack_bits(s[i]).skip(0) =~= unpack_bits(s[i]));
        let byte: u8 = s[i];
        lemma_pack_suffix(byte, 0);
        assert(byte >> 0u8 == byte) by (bit_vector);
    }
    assert(out =~= s);
}

/// A numeral string over radix 2, one numeral per bit.
#[derive(Debug, Clone, PartialEq, Eq)]
pub struct BinaryNumeralString(pub Vec<u16>);

impl BinaryNumeralString {
    /// The bits of `s`: byte by byte, the least significant bit of each first.
    pub fn from_bytes_le(s: &[u8]) -> (r: BinaryNumeralString)
        requires
            s@.len() * 8 <= usize::MAX,
        ensures
            r.0@.len() == 8 * s@.len(),
            forall|k: int|
                0 <= k < r.0@.len() ==> #[trigger] r.0@[k] == ((s@[k / 8] >> ((k % 8) as u8))
                    & 1) as u16,
    {
        let mut data: Vec<u16> = Vec::new();
        let mut i: usize = 0;
        while i < s.len()
            invariant
                i <= s@.len(),
                data@.len() == 8 * i,
                forall|k: int|
                    0 <= k < data@.len() ==> #[trigger] data@[k] == ((s@[k / 8] >> ((k
                        % 8) as u8)) & 1) as u16,
            decreases s.len() - i,
        {
            let byte = s[i];
            let mut j: u8 = 0;
            while j < 8
                invariant
                    j <= 8,
                    i < s@.len(),
                    byte == s@[i as int],
                    data@.len() == 8 * i + j,
                    forall|k: int|
                        0 <= k < data@.len() ==> #[trigger] data@[k] == ((s@[k / 8] >> ((k
                            % 8) as u8)) & 1) as u16,
                decreases 8 - j,
            {
                data.push(((byte >> j) & 1) as u16);
                j = j + 1;
            }
            i = i + 1;
        }
        BinaryNumeralString(data)
    }

    /// The bytes of the bits: each byte packs eight bits, the first of them
    /// as its least significant; the last byte packs those that are left.
    pub fn to_bytes_le(&self) -> (out: Vec<u8>)
        ensures
            out@.len() == (self.0@.len() + 7) / 8,
            forall|k: int|
                0 <= k < out@.len() ==> #[trigger] out@[k] == pack_bits(
                    self.0@.subrange(
                        8 * k,
                        if 8 * k + 8 <= self.0@.len() {
                            8 * k + 8
                        } else {
                            self.0@.len() as int
                        },
                    ),
                ),
    {
        let n = self.0.len();
        let count: usize = n / 8 + if n % 8 != 0 {
            1
        } else {
            0
        };
        let mut out: Vec<u8> = Vec::new();
        let mut k: usize = 0;
        while k < count
            invariant
                n == self.0@.len(),
                count == (n + 7) / 8,
                k <= count,
                out@.len() == k,
                forall|i: int|
                    0 <= i < out@.len() ==> #[trigger] out@[i] == pack_bits(
                        self.0@.subrange(
                            8 * i,
                            if 8 * i + 8 <= self.0@.len() {
                                8 * i + 8
                            } else {
                                self.0@.len() as int
                            },
                        ),
                    ),
            decreases count - k,
        {
            let start: usize = 8 * k;
            let end: usize = if n - start >= 8 {
                start + 8
            } else {
                n
            };
            let mut acc: u8 = 0;
            let mut j: usize = end;
            assert(self.0@.subrange(j as int, end as int).len() == 0);
            while j > start
                invariant
                    start <= j <= end,
                    end <= self.0@.len(),
                    acc == pack_bits(self.0@.subrange(j as int, end as int)),
                decreases j,
            {
                j = j - 1;
                assert(self.0@.subrange(j as int, end as int).skip(1) =~= self.0@.subrange(
                    j + 1,
                    end as int,
                ));
                let word: u16 = self.0[j];
                let bit: u16 = word & 1;
                assert(bit <= 1) by (bit_vector)
                    requires
                        bit == word & 1,
                ;
                acc = (acc << 1u8) | (bit as u8);
            }
            out.push(acc);
            k = k + 1;
        }
        out
    }
}

impl NumeralString for BinaryNumeralString {
    type Ops = FlexibleNumeralString;

    open spec fn numerals(&self) -> Seq<nat> {
        numerals_of(self.0@)
    }

    fn is_valid(&self, radix: u32) -> (ok: bool) {
        let mut i: usize = 0;
        while i < self.0.len()
            invariant
                i <= self.0@.len(),
                forall|j: int| 0 <= j < i ==> (#[trigger] self.numerals()[j]) < radix,
            decreases self.0.len() - i,
        {
            if (self.0[i] as u32) >= radix {
                assert(!(self.numerals()[i as int] < radix));
                return false;
            }
            i = i + 1;
        }
        true
    }

    fn numeral_count(&self) -> (n: usize) {
        self.0.len()
    }

    fn split(&self) -> (halves: (FlexibleNumeralString, FlexibleNumeralString)) {
        let u = self.0.len() / 2;
        let mut a: Vec<u16> = Vec::new();
        let mut b: Vec<u16> = Vec::new();
        let mut i: usize = 0;
        while i < u
            invariant
                i <= u,
                u <= self.0@.len(),
                a@ == self.0@.take(i as int),
            decreases u - i,
        {
            a.push(self.0[i]);
            i = i + 1;
            assert(a@ =~= self.0@.take(i as int));
        }
        while i < self.0.len()
            invariant
                u <= i <= self.0@.len(),
                b@ == self.0@.subrange(u as int, i as int),
            decreases self.0.len() - i,
        {
            b.push(self.0[i]);
            i = i + 1;
            assert(b@ =~= self.0@.subrange(u as int, i as int));
        }
        assert(numerals_of(a@) =~= self.numerals().take(u as int));
        assert(numerals_of(b@) =~= self.numerals().skip(u as int));
        (FlexibleNumeralString(a), FlexibleNumeralString(b))
    }

    fn concat(a: FlexibleNumeralString, b: FlexibleNumeralString) -> (r: Self) {
        let mut out = a.0;
        let mut i: usize = 0;
        while i < b.0.len()
            invariant
                i <= b.0@.len(),
                out@ == a.0@ + b.0@.take(i as int),
            decreases b.0.len() - i,
        {
            out.push(b.0[i]);
            i = i + 1;
            assert(out@ =~= a.0@ + b.0@.take(i as int));
        }
        assert(numerals_of(out@) =~= numerals_of(a.0@) + numerals_of(b.0@));
        BinaryNumeralString(out)
    }
}

} // verus!
