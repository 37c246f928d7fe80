//! A numeral string over any radix, held as one `u16` per numeral.

use vstd::prelude::*;
use vstd::arithmetic::div_mod::*;
use vstd::arithmetic::power::*;
use crate::digits::{
    bounded, convert, digits_nat, lemma_num_complement, lemma_num_sum, lemma_str_radix_mod,
};
use crate::numeral::{
    add_mod, bytes_as_numerals, lemma_num_of_str, lemma_num_radix_bound, lemma_str_radix_shape,
    num_bytes, num_radix, numerals_as_bytes, str_bytes, str_radix, sub_mod, valid_numerals,
    NumeralString, Operations,
};

verus! {

/// Stored numerals as numbers.
pub open spec fn numerals_of(s: Seq<u16>) -> Seq<nat> {
    Seq::new(s.len(), |i: int| s[i] as nat)
}

/// A numeral string over any radix up to `2^16`.
#[derive(Debug, Clone, PartialEq, Eq)]
pub struct FlexibleNumeralString(pub Vec<u16>);

fn widen(s: &Vec<u16>) -> (out: Vec<u32>)
    ensures
        out@.len() == s@.len(),
        digits_nat(out@) == numerals_of(s@),
        bounded(out@),
{
    let mut out: Vec<u32> = Vec::new();
    let mut i: usize = 0;
    while i < s.len()
        invariant
            i <= s@.len(),
            out@.len() == i,
            forall|j: int| 0 <= j < i ==> out@[j] == s@[j],
        decreases s.len() - i,
    {
        out.push(s[i] as u32);
        i = i + 1;
    }
    assert(digits_nat(out@) =~= numerals_of(s@));
    out
}

fn widen_bytes(s: &[u8]) -> (out: Vec<u32>)
    ensures
        out@.len() == s@.len(),
        digits_nat(out@) == bytes_as_numerals(s@),
        bounded(out@),
{
    let mut out: Vec<u32> = Vec::new();
    let mut i: usize = 0;
    while i < s.len()
        invariant
            i <= s@.len(),
            out@.len() == i,
            forall|j: int| 0 <= j < i ==> out@[j] == s@[j],
        decreases s.len() - i,
    {
        out.push(s[i] as u32);
        i = i + 1;
    }
    assert(digits_nat(out@) =~= bytes_as_numerals(s@));
    out
}

fn narrow(d: &Vec<u32>) -> (out: Vec<u16>)
    requires
        forall|i: int| 0 <= i < d@.len() ==> d@[i] < 0x1_0000,
    ensures
        numerals_of(out@) == digits_nat(d@),
{
    let mut out: Vec<u16> = Vec::new();
    let mut i: usize = 0;
    while i < d.len()
        invariant
            i <= d@.len(),
            out@.len() == i,
            forall|j: int| 0 <= j < d@.len() ==> d@[j] < 0x1_0000,
            forall|j: int| 0 <= j < i ==> out@[j] == d@[j],
        decreases d.len() - i,
    {
        out.push(d[i] as u16);
        i = i + 1;
    }
    assert(numerals_of(out@) =~= digits_nat(d@));
    out
}

fn narrow_bytes(d: &Vec<u32>) -> (out: Vec<u8>)
    requires
        forall|i: int| 0 <= i < d@.len() ==> d@[i] < 256,
    ensures
        out@ == numerals_as_bytes(digits_nat(d@)),
{
    let mut out: Vec<u8> = Vec::new();
    let mut i: usize = 0;
    while i < d.len()
        invariant
            i <= d@.len(),
            out@.len() == i,
            forall|j: int| 0 <= j < d@.len() ==> d@[j] < 256,
            forall|j: int| 0 <= j < i ==> out@[j] == d@[j],
        decreases d.len() - i,
    {
        out.push(d[i] as u8);
        i = i + 1;
    }
    assert(out@ =~= numerals_as_bytes(digits_nat(d@)));
    out
}

/// A power grows with its base.
pub proof fn lemma_pow_base_increases(a: nat, b: nat, e: nat)
    requires
        0 < a <= b,
    ensures
        pow(a as int, e) <= pow(b as int, e),
    decreases e,
{
    if e == 0 {
        lemma_pow0(a as int);
        lemma_pow0(b as int);
    } else {
        lemma_pow_base_increases(a, b, (e - 1) as nat);
        lemma_pow_adds(a as int, (e - 1) as nat, 1);
        lemma_pow_adds(b as int, (e - 1) as nat, 1);
        lemma_pow1(a as int);
        lemma_pow1(b as int);
        lemma_pow_positive(a as int, (e - 1) as nat);
        let x = pow(a as int, (e - 1) as nat);
        let y = pow(b as int, (e - 1) as nat);
        assert(x * a <= y * b) by (nonlinear_arith)
            requires
                0 <= x <= y,
                0 < a <= b,
        ;
    }
}

impl FlexibleNumeralString {
    /// The `m` least significant numerals, in base `radix`, of the number
    /// that `x` writes in bytes, most significant first.
    pub fn str_radix(x: &[u8], radix: u32, m: usize) -> (r: FlexibleNumeralString)
        requires
            2 <= radix <= 0x1_0000,
        ensures
            r.numerals() == str_radix(num_bytes(x@), radix as nat, m as nat),
    {
        let c = convert(widen_bytes(x), 256, radix, m);
        FlexibleNumeralString(narrow(&c))
    }

    /// The number that the string writes in base `radix`, in twice as many
    /// bytes as it has numerals, most significant first.
    pub fn num_radix(&self, radix: u32) -> (bytes: Vec<u8>)
        requires
            2 <= radix <= 0x1_0000,
            valid_numerals(self.numerals(), radix as nat),
            2 * self.numerals().len() <= usize::MAX,
        ensures
            bytes@ == str_bytes(
                num_radix(self.numerals(), radix as nat),
                2 * self.numerals().len(),
            ),
            num_bytes(bytes@) == num_radix(self.numerals(), radix as nat),
    {
        let len = self.0.len();
        let c = convert(widen(&self.0), radix, 256, 2 * len);
        let bytes = narrow_bytes(&c);
        proof {
            let n = num_radix(self.numerals(), radix as nat);
            let width = (2 * len) as nat;
            lemma_num_radix_bound(self.numerals(), radix as nat);
            lemma_pow_base_increases(radix as nat, 0x1_0000, len as nat);
            lemma_pow_multiplies(256, 2, len as nat);
            lemma_pow_adds(256, 1, 1);
            lemma_pow1(256);
            lemma_pow_positive(256, width);
            lemma_num_of_str(n, 256, width);
            lemma_str_radix_shape(n, 256, width);
            lemma_small_mod(n, pow(256, width) as nat);
            assert(bytes_as_numerals(bytes@) =~= str_radix(n, 256, width));
        }
        bytes
    }
}

impl Operations for FlexibleNumeralString {
    open spec fn sub_numerals(&self) -> Seq<nat> {
        numerals_of(self.0@)
    }

    fn numeral_count(&self) -> (n: usize) {
        self.0.len()
    }

    fn to_be_bytes(&self, radix: u32, b: usize) -> (bytes: Vec<u8>) {
        let digits = widen(&self.0);
        let out = convert(digits, radix, 256, b);
        narrow_bytes(&out)
    }

    fn add_mod_exp(self, other: &[u8], radix: u32, m: usize) -> (r: Self) {
        let a = convert(widen(&self.0), radix, radix, m);
        let y = convert(widen_bytes(other), 256, radix, m);
        let mut z: Vec<u32> = Vec::new();
        let mut i: usize = 0;
        while i < m
            invariant
                i <= m,
                a@.len() == m,
                y@.len() == m,
                z@.len() == i,
                radix <= 0x1_0000,
                forall|j: int| 0 <= j < m ==> a@[j] < radix,
                forall|j: int| 0 <= j < m ==> y@[j] < radix,
                forall|j: int| 0 <= j < i ==> z@[j] == a@[j] + y@[j],
            decreases m - i,
        {
            z.push(a[i] + y[i]);
            i = i + 1;
        }
        proof {
            let rn = radix as nat;
            let an = num_radix(self.sub_numerals(), rn);
            let yn = num_bytes(other@);
            let big = pow(radix as int, m as nat);
            lemma_pow_positive(radix as int, m as nat);
            lemma_num_sum(digits_nat(a@), digits_nat(y@), digits_nat(z@), rn);
            lemma_num_of_str(an, rn, m as nat);
            lemma_num_of_str(yn, rn, m as nat);
            lemma_add_mod_noop(an as int, yn as int, big);
            lemma_str_radix_mod(num_radix(digits_nat(z@), rn), rn, m as nat);
        }
        let c = convert(z, radix, radix, m);
        FlexibleNumeralString(narrow(&c))
    }

    fn sub_mod_exp(self, other: &[u8], radix: u32, m: usize) -> (r: Self) {
        let a = convert(widen(&self.0), radix, radix, m);
        let y = convert(widen_bytes(other), 256, radix, m);
        let mut z: Vec<u32> = Vec::new();
        let mut i: usize = 0;
        while i < m
            invariant
                i <= m,
                a@.len() == m,
                y@.len() == m,
                z@.len() == i,
                2 <= radix <= 0x1_0000,
                forall|j: int| 0 <= j < m ==> a@[j] < radix,
                forall|j: int| 0 <= j < m ==> y@[j] < radix,
                forall|j: int|
                    0 <= j < i ==> z@[j] == a@[j] + (radix - 1 - y@[j]) + (if j == m - 1 {
                        1int
                    } else {
                        0int
                    }),
            decreases m - i,
        {
            let one: u32 = if i == m - 1 {
                1
            } else {
                0
            };
            z.push(a[i] + (radix - 1 - y[i]) + one);
            i = i + 1;
        }
        proof {
            let rn = radix as nat;
            let an = num_radix(self.sub_numerals(), rn);
            let yn = num_bytes(other@);
            let big = pow(radix as int, m as nat);
            lemma_pow_positive(radix as int, m as nat);
            if m > 0 {
                let w = Seq::new(m as nat, |j: int| (radix - 1 - y@[j]) as nat);
                let s = Seq::new(m as nat, |j: int| a@[j] as nat + w[j]);
                let zn = digits_nat(z@);
                lemma_num_complement(digits_nat(y@), w, rn);
                lemma_num_sum(digits_nat(a@), w, s, rn);
                assert(zn.drop_last() =~= s.drop_last());
                assert(zn.last() == s.last() + 1);
                assert(num_radix(zn, rn) == num_radix(s, rn) + 1);
                lemma_num_of_str(an, rn, m as nat);
                lemma_num_of_str(yn, rn, m as nat);
                let a1 = (an as int) % big;
                let y1 = (yn as int) % big;
                assert(num_radix(zn, rn) == a1 - y1 + big);
                lemma_sub_mod_noop(an as int, yn as int, big);
                lemma_mod_add_multiples_vanish(a1 - y1, big);
                lemma_str_radix_mod(num_radix(zn, rn), rn, m as nat);
            }
        }
        let c = convert(z, radix, radix, m);
        FlexibleNumeralString(narrow(&c))
    }
}

impl NumeralString for FlexibleNumeralString {
    type Ops = FlexibleNumeralString;

    open spec fn numerals(&self) -> Seq<nat> {
        numerals_of(self.0@)
    }

    fn is_valid(&self, radix: u32) -> (ok: bool) {
        let mut i: usize = 0;
        while i < self.0.len()
            invariant
                i <= self.0@.len(),
                forall|j: int| 0 <= j < i ==> (#[trigger] self.numerals()[j]) < radix,
            decreases self.0.len() - i,
        {
            if (self.0[i] as u32) >= radix {
                assert(!(self.numerals()[i as int] < radix));
                return false;
            }
            i = i + 1;
        }
        true
    }

    fn numeral_count(&self) -> (n: usize) {
        self.0.len()
    }

    fn split(&self) -> (halves: (FlexibleNumeralString, FlexibleNumeralString)) {
        let u = self.0.len() / 2;
        let mut a: Vec<u16> = Vec::new();
        let mut b: Vec<u16> = Vec::new();
        let mut i: usize = 0;
        while i < u
            invariant
                i <= u,
                u <= self.0@.len(),
                a@ == self.0@.take(i as int),
            decreases u - i,
        {
            a.push(self.0[i]);
            i = i + 1;
            assert(a@ =~= self.0@.take(i as int));
        }
        while i < self.0.len()
            invariant
                u <= i <= self.0@.len(),
                b@ == self.0@.subrange(u as int, i as int),
            decreases self.0.len() - i,
        {
            b.push(self.0[i]);
            i = i + 1;
            assert(b@ =~= self.0@.subrange(u as int, i as int));
        }
        assert(numerals_of(a@) =~= self.numerals().take(u as int));
        assert(numerals_of(b@) =~= self.numerals().skip(u as int));
        (FlexibleNumeralString(a), FlexibleNumeralString(b))
    }

    fn concat(a: FlexibleNumeralString, b: FlexibleNumeralString) -> (r: Self) {
        let mut out = a.0;
        let mut i: usize = 0;
        while i < b.0.len()
            invariant
                i <= b.0@.len(),
                out@ == a.0@ + b.0@.take(i as int),
            decreases b.0.len() - i,
        {
            out.push(b.0[i]);
            i = i + 1;
            assert(out@ =~= a.0@ + b.0@.take(i as int));
        }
        assert(numerals_of(out@) =~= numerals_of(a.0@) + numerals_of(b.0@));
        FlexibleNumeralString(out)
    }
}

} // verus!
