//! The FF1 engine: a Feistel network over the two halves of a numeral string.

use vstd::prelude::*;
use crate::cipher::Cipher;
use crate::domain::{spec_b, spec_d};
use crate::error::{InvalidRadix, NumeralStringError};
use crate::expand::{be_bytes, expand_s, generate_s};
use crate::laws::{law_decrypt_keeps_length, law_decrypt_keeps_validity, law_encrypt_keeps_shape};
use crate::numeral::{
    add_mod, lemma_str_radix_shape, num_bytes, num_radix, str_bytes, str_radix, sub_mod,
    valid_numerals, NumeralString, Operations,
};
use crate::prf::{cbc_mac, Prf};
use crate::radix::{is_power_of_two, Radix, MAX_NS_LEN, MAX_RADIX};

verus! {

/// What every round of one call shares: the cipher, the radix, the tweak and
/// the length of the numeral string.
pub struct Params {
    pub ciph: Cipher,
    pub radix: nat,
    pub tweak: Seq<u8>,
    pub n: nat,
}

impl Params {
    /// The length of the first half, `floor(n / 2)`.
    pub open spec fn u(&self) -> nat {
        self.n / 2
    }

    /// The length of the second half.
    pub open spec fn v(&self) -> nat {
        (self.n - self.n / 2) as nat
    }

    /// The number of bytes that carry a half into the PRF.
    pub open spec fn b(&self) -> nat {
        spec_b(self.radix, self.v())
    }

    /// The number of bytes that the PRF output is expanded to.
    pub open spec fn d(&self) -> nat {
        spec_d(self.b())
    }

    /// The block `P`: `1 2 1`, the radix in three bytes, `10`, `u mod 256`,
    /// `n` in four bytes and the length of the tweak in four bytes.
    pub open spec fn prefix(&self) -> Seq<u8> {
        spec_prefix(self.radix, self.n, self.tweak.len())
    }

    /// The number of zero bytes behind the tweak, `(-t - b - 1) mod 16`.
    pub open spec fn pad_len(&self) -> nat {
        spec_pad_len(self.tweak.len(), self.b())
    }

    /// What the PRF takes in before the part that differs by round:
    /// `P`, the tweak and the zero bytes.
    pub open spec fn common_input(&self) -> Seq<u8> {
        self.prefix() + self.tweak + Seq::new(self.pad_len(), |i: int| 0u8)
    }

    /// The whole input of the PRF in round `i`, where `half` is the half
    /// that the round reads.
    pub open spec fn round_input(&self, i: nat, half: Seq<nat>) -> Seq<u8> {
        self.common_input() + seq![i as u8] + str_bytes(num_radix(half, self.radix), self.b())
    }

    /// The number `y` of round `i`: the expanded PRF output, read as a number.
    pub open spec fn round_y(&self, i: nat, half: Seq<nat>) -> nat {
        num_bytes(
            expand_s(self.ciph, cbc_mac(self.ciph, self.round_input(i, half)), self.d()),
        )
    }

    /// The length `m` of the half that round `i` writes.
    pub open spec fn round_len(&self, i: nat) -> nat {
        if i % 2 == 0 {
            self.u()
        } else {
            self.v()
        }
    }

    /// Round `i` of encryption: `(A, B)` becomes `(B, A + y(B) mod radix^m)`.
    pub open spec fn enc_round(&self, i: nat, ab: (Seq<nat>, Seq<nat>)) -> (Seq<nat>, Seq<nat>) {
        let m = self.round_len(i);
        let c = add_mod(num_radix(ab.0, self.radix), self.round_y(i, ab.1), self.radix, m);
        (ab.1, str_radix(c, self.radix, m))
    }

    /// Round `i` of decryption: `(A, B)` becomes `(B - y(A) mod radix^m, A)`.
    pub open spec fn dec_round(&self, i: nat, ab: (Seq<nat>, Seq<nat>)) -> (Seq<nat>, Seq<nat>) {
        let m = self.round_len(i);
        let c = sub_mod(num_radix(ab.1, self.radix), self.round_y(i, ab.0), self.radix, m);
        (str_radix(c, self.radix, m), ab.0)
    }

    /// Rounds `0` to `k - 1` of encryption, in this order.
    pub open spec fn enc_rounds(&self, k: nat, ab: (Seq<nat>, Seq<nat>)) -> (Seq<nat>, Seq<nat>)
        decreases k,
    {
        if k == 0 {
            ab
        } else {
            self.enc_round((k - 1) as nat, self.enc_rounds((k - 1) as nat, ab))
        }
    }

    /// Rounds `k - 1` down to `0` of decryption, in this order.
    pub open spec fn dec_rounds(&self, k: nat, ab: (Seq<nat>, Seq<nat>)) -> (Seq<nat>, Seq<nat>)
        decreases k,
    {
        if k == 0 {
            ab
        } else {
            self.dec_rounds((k - 1) as nat, self.dec_round((k - 1) as nat, ab))
        }
    }
}

/// The two halves of `x`.
pub open spec fn halves(x: Seq<nat>) -> (Seq<nat>, Seq<nat>) {
    (x.take((x.len() / 2) as int), x.skip((x.len() / 2) as int))
}

/// The ciphertext of `x`.
pub open spec fn spec_encrypt(ciph: Cipher, radix: nat, rounds: nat, tweak: Seq<u8>, x: Seq<nat>) -> Seq<nat> {
    let p = Params { ciph, radix, tweak, n: x.len() };
    let ab = p.enc_rounds(rounds, halves(x));
    ab.0 + ab.1
}

/// The plaintext of `x`.
pub open spec fn spec_decrypt(ciph: Cipher, radix: nat, rounds: nat, tweak: Seq<u8>, x: Seq<nat>) -> Seq<nat> {
    let p = Params { ciph, radix, tweak, n: x.len() };
    let ab = p.dec_rounds(rounds, halves(x));
    ab.0 + ab.1
}

/// Why the engine refuses `x`, if it does: first for a numeral that is not
/// below the radix, then for its length.
pub open spec fn rejection(radix: Radix, x: Seq<nat>) -> Option<NumeralStringError> {
    if !valid_numerals(x, radix.spec_radix() as nat) {
        Some(NumeralStringError::InvalidForRadix(radix.spec_radix()))
    } else if x.len() < radix.spec_min_len() {
        Some(
            NumeralStringError::TooShort {
                ns_len: x.len() as usize,
                min_len: radix.spec_min_len() as usize,
            },
        )
    } else if x.len() > MAX_NS_LEN {
        Some(NumeralStringError::TooLong { ns_len: x.len() as usize, max_len: MAX_NS_LEN })
    } else {
        None
    }
}

/// The byte lengths `b` and `d` of a string of `n` numerals fit a machine
/// word. They always do where a word has 64 bits.
pub open spec fn lengths_fit(n: nat) -> bool {
    n <= MAX_NS_LEN ==> 2 * (n - n / 2) + 7 <= usize::MAX
}

/// The block `P` for a string of `n` numerals and a tweak of `t` bytes.
pub open spec fn spec_prefix(radix: nat, n: nat, t: nat) -> Seq<u8> {
    seq![1u8, 2u8, 1u8] + str_bytes(radix, 3) + seq![10u8, ((n / 2) % 256) as u8] + str_bytes(n, 4)
        + str_bytes(t, 4)
}

/// The number of zero bytes behind a tweak of `t` bytes, `(-t - b - 1) mod 16`.
pub open spec fn spec_pad_len(t: nat, b: nat) -> nat {
    ((16 - (t + b + 1) % 16) % 16) as nat
}

/// Appends `piece` to `out`.
fn append(out: &mut Vec<u8>, piece: &Vec<u8>)
    ensures
        final(out)@ == old(out)@ + piece@,
{
    let mut i: usize = 0;
    assert(out@ =~= old(out)@ + piece@.take(0));
    while i < piece.len()
        invariant
            i <= piece@.len(),
            out@ == old(out)@ + piece@.take(i as int),
        decreases piece.len() - i,
    {
        out.push(piece[i]);
        i = i + 1;
        assert(out@ =~= old(out)@ + piece@.take(i as int));
    }
    assert(piece@.take(piece@.len() as int) =~= piece@);
}

/// The block `P`.
pub fn prefix_bytes(radix: u32, n: usize, t: usize) -> (out: Vec<u8>)
    ensures
        out@ == spec_prefix(radix as nat, n as nat, t as nat),
        out@.len() == 16,
{
    let mut out: Vec<u8> = Vec::new();
    out.push(1u8);
    out.push(2u8);
    out.push(1u8);
    assert(out@ =~= seq![1u8, 2u8, 1u8]);
    let radix_bytes = be_bytes(radix as usize, 3);
    append(&mut out, &radix_bytes);
    let mut mid: Vec<u8> = Vec::new();
    mid.push(10u8);
    mid.push(((n / 2) % 256) as u8);
    assert(mid@ =~= seq![10u8, ((n / 2) % 256) as u8]);
    append(&mut out, &mid);
    let n_bytes = be_bytes(n, 4);
    append(&mut out, &n_bytes);
    let t_bytes = be_bytes(t, 4);
    append(&mut out, &t_bytes);
    out
}

/// The zero bytes behind a tweak of `t` bytes.
pub fn pad_bytes(t: usize, b: usize) -> (out: Vec<u8>)
    ensures
        out@ == Seq::new(spec_pad_len(t as nat, b as nat), |i: int| 0u8),
        (16 + t + out@.len() + 1 + b) % 16 == 0,
{
    let pad: usize = (16 - ((t % 16) + (b % 16) + 1) % 16) % 16;
    let mut out: Vec<u8> = Vec::new();
    let mut j: usize = 0;
    while j < pad
        invariant
            j <= pad,
            out@.len() == j,
            forall|i: int| 0 <= i < j ==> out@[i] == 0u8,
        decreases pad - j,
    {
        out.push(0u8);
        j = j + 1;
    }
    assert(out@ =~= Seq::new(spec_pad_len(t as nat, b as nat), |i: int| 0u8));
    out
}

/// An FF1 engine: a keyed cipher, a radix and a number of Feistel rounds.
pub struct FF1 {
    ciph: Cipher,
    radix: Radix,
    faistel_rounds: u8,
}

impl FF1 {
    /// The keyed cipher.
    pub closed spec fn cipher(&self) -> Cipher {
        self.ciph
    }

    /// The radix.
    pub closed spec fn radix(&self) -> Radix {
        self.radix
    }

    /// The number of Feistel rounds.
    pub closed spec fn rounds(&self) -> u8 {
        self.faistel_rounds
    }

    /// The invariant of an engine: its radix is classified.
    pub open spec fn wf(&self) -> bool {
        self.radix().wf()
    }

    /// An engine of ten rounds for `key` and `radix`, or the refusal of a
    /// radix outside `[2, 2^16]`.
    pub fn new(key: &[u8], radix: u32) -> (r: Result<FF1, InvalidRadix>)
        requires
            Cipher::key_len_ok(key@.len()),
        ensures
            !(2 <= radix <= MAX_RADIX) ==> (r matches Err(e) && e == InvalidRadix(radix)),
            2 <= radix <= MAX_RADIX ==> (r matches Ok(f) && f.wf() && f.cipher().key() == key@
                && f.radix().spec_radix() == radix && (f.radix() is PowerTwo <==> is_power_of_two(
                radix as nat,
            )) && f.rounds() == 10),
    {
        Self::new_with_faistel_rounds(key, radix, 10)
    }

    /// An engine of `faistel_rounds` rounds for `key` and `radix`, or the
    /// refusal of a radix outside `[2, 2^16]`.
    pub fn new_with_faistel_rounds(key: &[u8], radix: u32, faistel_rounds: u8) -> (r: Result<
        FF1,
        InvalidRadix,
    >)
        requires
            Cipher::key_len_ok(key@.len()),
        ensures
            !(2 <= radix <= MAX_RADIX) ==> (r matches Err(e) && e == InvalidRadix(radix)),
            2 <= radix <= MAX_RADIX ==> (r matches Ok(f) && f.wf() && f.cipher().key() == key@
                && f.radix().spec_radix() == radix && (f.radix() is PowerTwo <==> is_power_of_two(
                radix as nat,
            )) && f.rounds() == faistel_rounds),
    {
        let ciph = Cipher::new(key).unwrap();
        match Radix::from_u32(radix) {
            Ok(radix) => Ok(FF1 { ciph, radix, faistel_rounds }),
            Err(e) => Err(e),
        }
    }

    /// Encrypts the numeral string `x` under `tweak`, or refuses it: for a
    /// numeral that is not below the radix, or for its length. The
    /// ciphertext has the length of `x` and is valid for the radix.
    pub fn encrypt<NS: NumeralString>(&self, tweak: &[u8], x: &NS) -> (r: Result<
        NS,
        NumeralStringError,
    >)
        requires
            self.wf(),
            lengths_fit(x.numerals().len()),
        ensures
            rejection(self.radix(), x.numerals()) matches Some(e) ==> (r matches Err(e2) && e2
                == e),
            rejection(self.radix(), x.numerals()) is None ==> (r matches Ok(y) && y.numerals()
                == spec_encrypt(
                self.cipher(),
                self.radix().spec_radix() as nat,
                self.rounds() as nat,
                tweak@,
                x.numerals(),
            ) && y.numerals().len() == x.numerals().len() && valid_numerals(
                y.numerals(),
                self.radix().spec_radix() as nat,
            )),
    {
        match self.check(x) {
            Err(e) => {
                return Err(e);
            },
            Ok(_) => {},
        }
        let radix = self.radix.to_u32();
        let n = x.numeral_count();
        let (mut x_a, mut x_b) = x.split();
        let u = x_a.numeral_count();
        let v = x_b.numeral_count();
        let b = self.radix.calculate_b(v);
        let d = 4 * ((b + 3) / 4) + 4;
        let ghost p = Params { ciph: self.ciph, radix: radix as nat, tweak: tweak@, n: n as nat };
        let ghost start = halves(x.numerals());
        proof {
            law_encrypt_keeps_shape(
                self.ciph,
                radix as nat,
                self.faistel_rounds as nat,
                tweak@,
                x.numerals(),
            );
        }
        let prf = self.start_prf(tweak, n, b);
        let mut i: u8 = 0;
        while i < self.faistel_rounds
            invariant
                2 <= radix <= MAX_RADIX,
                i <= self.faistel_rounds,
                prf.wf(),
                prf.cipher() == self.ciph,
                prf.absorbed() == p.common_input(),
                (prf.absorbed().len() + 1 + b) % 16 == 0,
                p.ciph == self.ciph,
                p.radix == radix,
                u == p.u(),
                v == p.v(),
                b == p.b(),
                d == p.d(),
                (x_a.sub_numerals(), x_b.sub_numerals()) == p.enc_rounds(i as nat, start),
                valid_numerals(x_a.sub_numerals(), radix as nat),
                valid_numerals(x_b.sub_numerals(), radix as nat),
            decreases self.faistel_rounds - i,
        {
            let num = x_b.to_be_bytes(radix, b);
            proof {
                lemma_str_radix_shape(num_radix(x_b.sub_numerals(), radix as nat), 256, b as nat);
            }
            let s = self.round_key(&prf, i, num.as_slice(), d);
            let m = if i % 2 == 0 {
                u
            } else {
                v
            };
            let ghost before = (x_a.sub_numerals(), x_b.sub_numerals());
            let x_c = x_a.add_mod_exp(s.as_slice(), radix, m);
            proof {
                assert(s@ == expand_s(p.ciph, cbc_mac(p.ciph, p.round_input(i as nat, before.1)), p.d()));
                assert((before.1, x_c.sub_numerals()) == p.enc_round(i as nat, before));
                lemma_str_radix_shape(
                    add_mod(
                        num_radix(before.0, radix as nat),
                        num_bytes(s@),
                        radix as nat,
                        m as nat,
                    ),
                    radix as nat,
                    m as nat,
                );
            }
            x_a = x_b;
            x_b = x_c;
            i = i + 1;
        }
        Ok(NS::concat(x_a, x_b))
    }

    /// Decrypts the numeral string `x` under `tweak`, or refuses it: for a
    /// numeral that is not below the radix, or for its length. The
    /// plaintext is valid for the radix; it has the length of `x` unless a
    /// single round runs on a string of odd length.
    pub fn decrypt<NS: NumeralString>(&self, tweak: &[u8], x: &NS) -> (r: Result<
        NS,
        NumeralStringError,
    >)
        requires
            self.wf(),
            lengths_fit(x.numerals().len()),
        ensures
            rejection(self.radix(), x.numerals()) matches Some(e) ==> (r matches Err(e2) && e2
                == e),
            rejection(self.radix(), x.numerals()) is None ==> (r matches Ok(y) && y.numerals()
                == spec_decrypt(
                self.cipher(),
                self.radix().spec_radix() as nat,
                self.rounds() as nat,
                tweak@,
                x.numerals(),
            ) && valid_numerals(y.numerals(), self.radix().spec_radix() as nat) && (self.rounds()
                != 1 || x.numerals().len() % 2 == 0 ==> y.numerals().len()
                == x.numerals().len())),
    {
        match self.check(x) {
            Err(e) => {
                return Err(e);
            },
            Ok(_) => {},
        }
        let radix = self.radix.to_u32();
        let n = x.numeral_count();
        let (mut x_a, mut x_b) = x.split();
        let u = x_a.numeral_count();
        let v = x_b.numeral_count();
        let b = self.radix.calculate_b(v);
        let d = 4 * ((b + 3) / 4) + 4;
        let ghost p = Params { ciph: self.ciph, radix: radix as nat, tweak: tweak@, n: n as nat };
        let ghost start = halves(x.numerals());
        proof {
            let rounds = self.faistel_rounds as nat;
            law_decrypt_keeps_validity(self.ciph, radix as nat, rounds, tweak@, x.numerals());
            if rounds != 1 || n % 2 == 0 {
                law_decrypt_keeps_length(self.ciph, radix as nat, rounds, tweak@, x.numerals());
            }
        }
        let prf = self.start_prf(tweak, n, b);
        let mut k: u8 = self.faistel_rounds;
        while k > 0
            invariant
                2 <= radix <= MAX_RADIX,
                k <= self.faistel_rounds,
                prf.wf(),
                prf.cipher() == self.ciph,
                prf.absorbed() == p.common_input(),
                (prf.absorbed().len() + 1 + b) % 16 == 0,
                p.ciph == self.ciph,
                p.radix == radix,
                u == p.u(),
                v == p.v(),
                b == p.b(),
                d == p.d(),
                p.dec_rounds(k as nat, (x_a.sub_numerals(), x_b.sub_numerals())) == p.dec_rounds(
                    self.faistel_rounds as nat,
                    start,
                ),
                valid_numerals(x_a.sub_numerals(), radix as nat),
                valid_numerals(x_b.sub_numerals(), radix as nat),
            decreases k,
        {
            let i: u8 = k - 1;
            let num = x_a.to_be_bytes(radix, b);
            proof {
                lemma_str_radix_shape(num_radix(x_a.sub_numerals(), radix as nat), 256, b as nat);
            }
            let s = self.round_key(&prf, i, num.as_slice(), d);
            let m = if i % 2 == 0 {
                u
            } else {
                v
            };
            let ghost before = (x_a.sub_numerals(), x_b.sub_numerals());
            let x_c = x_b.sub_mod_exp(s.as_slice(), radix, m);
            proof {
                assert(s@ == expand_s(p.ciph, cbc_mac(p.ciph, p.round_input(i as nat, before.0)), p.d()));
                assert((x_c.sub_numerals(), before.0) == p.dec_round(i as nat, before));
                lemma_str_radix_shape(
                    sub_mod(
                        num_radix(before.1, radix as nat),
                        num_bytes(s@),
                        radix as nat,
                        m as nat,
                    ),
                    radix as nat,
                    m as nat,
                );
            }
            x_b = x_a;
            x_a = x_c;
            k = i;
        }
        Ok(NS::concat(x_a, x_b))
    }

    /// Validates `x` against the radix.
    fn check<NS: NumeralString>(&self, x: &NS) -> (r: Result<(), NumeralStringError>)
        requires
            self.wf(),
        ensures
            rejection(self.radix, x.numerals()) matches Some(e) ==> r == Err::<
                (),
                NumeralStringError,
            >(e),
            rejection(self.radix, x.numerals()) is None ==> r is Ok,
    {
        let radix = self.radix.to_u32();
        if !x.is_valid(radix) {
            return Err(NumeralStringError::InvalidForRadix(radix));
        }
        self.radix.check_ns_length(x.numeral_count())
    }

    /// A PRF that has taken in what all rounds share.
    fn start_prf(&self, tweak: &[u8], n: usize, b: usize) -> (prf: Prf)
        requires
            self.wf(),
        ensures
            prf.wf(),
            prf.cipher() == self.ciph,
            ({
                let p = Params {
                    ciph: self.ciph,
                    radix: self.radix.spec_radix() as nat,
                    tweak: tweak@,
                    n: n as nat,
                };
                b == p.b() ==> prf.absorbed() == p.common_input() && (prf.absorbed().len() + 1
                    + b) % 16 == 0
            }),
    {
        let prefix = prefix_bytes(self.radix.to_u32(), n, tweak.len());
        let pad = pad_bytes(tweak.len(), b);
        let mut prf = Prf::new(&self.ciph);
        prf.update(prefix.as_slice());
        prf.update(tweak);
        prf.update(pad.as_slice());
        assert(prf.absorbed() =~= prefix@ + tweak@ + pad@);
        prf
    }

    /// The byte string `S` of round `i`: the PRF of what all rounds share,
    /// the round number and the bytes `num` of the half that the round reads,
    /// expanded to `d` bytes.
    fn round_key(&self, prf: &Prf, i: u8, num: &[u8], d: usize) -> (s: Vec<u8>)
        requires
            prf.wf(),
            prf.cipher() == self.ciph,
            (prf.absorbed().len() + 1 + num@.len()) % 16 == 0,
        ensures
            s@ == expand_s(
                self.ciph,
                cbc_mac(self.ciph, prf.absorbed() + seq![i] + num@),
                d as nat,
            ),
    {
        let mut round = *prf;
        let mut index: Vec<u8> = Vec::new();
        index.push(i);
        assert(index@ =~= seq![i]);
        round.update(index.as_slice());
        round.update(num);
        let r = round.output();
        generate_s(&self.ciph, &r, d)
    }
}

} // verus!
