//! Numeral strings: what they are as numbers, and what the mode asks of an
//! implementation.

use vstd::prelude::*;
use vstd::arithmetic::div_mod::*;
use vstd::arithmetic::power::*;

verus! {

/// Every numeral of `x` is below `radix`.
pub open spec fn valid_numerals(x: Seq<nat>, radix: nat) -> bool {
    forall|i: int| 0 <= i < x.len() ==> x[i] < radix
}

/// The number that `x` writes in base `radix`, most significant numeral first.
pub open spec fn num_radix(x: Seq<nat>, radix: nat) -> nat
    decreases x.len(),
{
    if x.len() == 0 {
        0
    } else {
        num_radix(x.drop_last(), radix) * radix + x.last()
    }
}

/// The `m` least significant numerals of `n` in base `radix`, most
/// significant first.
pub open spec fn str_radix(n: nat, radix: nat, m: nat) -> Seq<nat>
    decreases m,
{
    if m == 0 {
        Seq::empty()
    } else {
        str_radix(n / radix, radix, (m - 1) as nat).push(n % radix)
    }
}

/// Bytes as numerals of base 256.
pub open spec fn bytes_as_numerals(bytes: Seq<u8>) -> Seq<nat> {
    Seq::new(bytes.len(), |i: int| bytes[i] as nat)
}

/// Numerals of base 256 as bytes.
pub open spec fn numerals_as_bytes(x: Seq<nat>) -> Seq<u8> {
    Seq::new(x.len(), |i: int| x[i] as u8)
}

/// The number that `bytes` writes in base 256, most significant byte first.
pub open spec fn num_bytes(bytes: Seq<u8>) -> nat {
    num_radix(bytes_as_numerals(bytes), 256)
}

/// The `len` least significant bytes of `n`, most significant first.
pub open spec fn str_bytes(n: nat, len: nat) -> Seq<u8> {
    numerals_as_bytes(str_radix(n, 256, len))
}

/// `(a + y) mod radix^m`.
pub open spec fn add_mod(a: nat, y: nat, radix: nat, m: nat) -> nat {
    (((a + y) as int) % pow(radix as int, m)) as nat
}

/// `(a - y) mod radix^m`, the residue that is not negative.
pub open spec fn sub_mod(a: nat, y: nat, radix: nat, m: nat) -> nat {
    ((a - y) % pow(radix as int, m)) as nat
}

/// One half of a numeral string, with the arithmetic that a Feistel round
/// needs.
pub trait Operations: Sized {
    /// The numerals of this half.
    spec fn sub_numerals(&self) -> Seq<nat>;

    /// The number of numerals.
    fn numeral_count(&self) -> (n: usize)
        ensures
            n == self.sub_numerals().len(),
    ;

    /// The number that this half writes in base `radix`, as exactly `b`
    /// bytes, most significant first.
    fn to_be_bytes(&self, radix: u32, b: usize) -> (bytes: Vec<u8>)
        requires
            2 <= radix <= 0x1_0000,
            valid_numerals(self.sub_numerals(), radix as nat),
        ensures
            bytes@ == str_bytes(num_radix(self.sub_numerals(), radix as nat), b as nat),
    ;

    /// `(self + other) mod radix^m` as `m` numerals, where `other` is a
    /// number in bytes, most significant first.
    fn add_mod_exp(self, other: &[u8], radix: u32, m: usize) -> (r: Self)
        requires
            2 <= radix <= 0x1_0000,
            valid_numerals(self.sub_numerals(), radix as nat),
        ensures
            r.sub_numerals() == str_radix(
                add_mod(
                    num_radix(self.sub_numerals(), radix as nat),
                    num_bytes(other@),
                    radix as nat,
                    m as nat,
                ),
                radix as nat,
                m as nat,
            ),
    ;

    /// `(self - other) mod radix^m` as `m` numerals, where `other` is a
    /// number in bytes, most significant first.
    fn sub_mod_exp(self, other: &[u8], radix: u32, m: usize) -> (r: Self)
        requires
            2 <= radix <= 0x1_0000,
            valid_numerals(self.sub_numerals(), radix as nat),
        ensures
            r.sub_numerals() == str_radix(
                sub_mod(
                    num_radix(self.sub_numerals(), radix as nat),
                    num_bytes(other@),
                    radix as nat,
                    m as nat,
                ),
                radix as nat,
                m as nat,
            ),
    ;
}

/// A finite sequence of numerals.
pub trait NumeralString: Sized {
    /// The type of a half.
    type Ops: Operations;

    /// The numerals, first to last.
    spec fn numerals(&self) -> Seq<nat>;

    /// Whether every numeral is below `radix`.
    fn is_valid(&self, radix: u32) -> (ok: bool)
        ensures
            ok == valid_numerals(self.numerals(), radix as nat),
    ;

    /// The number of numerals.
    fn numeral_count(&self) -> (n: usize)
        ensures
            n == self.numerals().len(),
    ;

    /// The first `floor(n / 2)` numerals, and the rest.
    fn split(&self) -> (halves: (Self::Ops, Self::Ops))
        ensures
            halves.0.sub_numerals() == self.numerals().take((self.numerals().len() / 2) as int),
            halves.1.sub_numerals() == self.numerals().skip((self.numerals().len() / 2) as int),
    ;

    /// The string made of `a`, then `b`.
    fn concat(a: Self::Ops, b: Self::Ops) -> (r: Self)
        ensures
            r.numerals() == a.sub_numerals() + b.sub_numerals(),
    ;
}

/// `str_radix` gives `m` numerals, each below the radix.
pub proof fn lemma_str_radix_shape(n: nat, radix: nat, m: nat)
    requires
        radix > 0,
    ensures
        str_radix(n, radix, m).len() == m,
        valid_numerals(str_radix(n, radix, m), radix),
    decreases m,
{
    if m > 0 {
        lemma_str_radix_shape(n / radix, radix, (m - 1) as nat);
        lemma_mod_bound(n as int, radix as int);
    }
}

/// A valid string of `len` numerals writes a number below `radix^len`.
pub proof fn lemma_num_radix_bound(x: Seq<nat>, radix: nat)
    requires
        radix > 0,
        valid_numerals(x, radix),
    ensures
        num_radix(x, radix) < pow(radix as int, x.len()),
    decreases x.len(),
{
    if x.len() == 0 {
        lemma_pow0(radix as int);
    } else {
        let head = x.drop_last();
        lemma_num_radix_bound(head, radix);
        lemma_pow_adds(radix as int, head.len(), 1);
        lemma_pow1(radix as int);
        let h = num_radix(head, radix) as int;
        let p = pow(radix as int, head.len());
        let r = radix as int;
        let l = x.last() as int;
        assert(h * r + l < p * r) by (nonlinear_arith)
            requires
                0 <= h < p,
                0 <= l < r,
        ;
    }
}

/// Reading back what `str_radix` wrote gives the number modulo `radix^m`.
pub proof fn lemma_num_of_str(n: nat, radix: nat, m: nat)
    requires
        radix > 0,
    ensures
        num_radix(str_radix(n, radix, m), radix) == n % (pow(radix as int, m) as nat),
    decreases m,
{
    let r = radix as int;
    if m == 0 {
        lemma_pow0(r);
    } else {
        let k = (m - 1) as nat;
        let s = str_radix(n, radix, m);
        lemma_num_of_str(n / radix, radix, k);
        assert(s.drop_last() =~= str_radix(n / radix, radix, k));
        lemma_pow_positive(r, k);
        lemma_pow_positive(r, m);
        lemma_pow_adds(r, 1, k);
        lemma_pow1(r);
        lemma_breakdown(n as int, r, pow(r, k));
        let pk = pow(r, k);
        let q = n as int / r;
        let rem = q % pk;
        assert(pow(r, m) == r * pk);
        assert((n / radix) as int == q);
        assert(num_radix(s.drop_last(), radix) as int == rem);
        assert(s.last() as int == n as int % r);
        assert(rem * r == r * rem) by (nonlinear_arith);
        assert(num_radix(s, radix) as int == rem * r + n as int % r);
    }
}

/// Writing the number of a valid string with as many numerals gives the
/// string back.
pub proof fn lemma_str_of_num(x: Seq<nat>, radix: nat)
    requires
        radix > 0,
        valid_numerals(x, radix),
    ensures
        str_radix(num_radix(x, radix), radix, x.len()) == x,
    decreases x.len(),
{
    if x.len() > 0 {
        let head = x.drop_last();
        let h = num_radix(head, radix);
        let n = num_radix(x, radix);
        lemma_str_of_num(head, radix);
        lemma_fundamental_div_mod_converse(n as int, radix as int, h as int, x.last() as int);
        assert(str_radix(n, radix, x.len()) =~= x);
    }
}

/// Subtracting, modulo `radix^m`, what was added modulo `radix^m` to a valid
/// string of `m` numerals gives the string back.
pub proof fn lemma_sub_undoes_add(a: Seq<nat>, y: nat, radix: nat)
    requires
        radix > 0,
        valid_numerals(a, radix),
    ensures
        ({
            let m = a.len();
            let c = str_radix(add_mod(num_radix(a, radix), y, radix, m), radix, m);
            str_radix(sub_mod(num_radix(c, radix), y, radix, m), radix, m) == a
        }),
{
    let m = a.len();
    let r = radix as int;
    let big = pow(r, m);
    let an = num_radix(a, radix);
    let cn = add_mod(an, y, radix, m);
    let c = str_radix(cn, radix, m);
    lemma_pow_positive(r, m);
    lemma_num_radix_bound(a, radix);
    lemma_mod_bound((an + y) as int, big);
    lemma_num_of_str(cn, radix, m);
    lemma_small_mod(cn, big as nat);
    assert(num_radix(c, radix) == cn);
    lemma_fundamental_div_mod((an + y) as int, big);
    let q = ((an + y) as int) / big;
    assert(cn - y == big * (-q) + an) by (nonlinear_arith)
        requires
            an + y == big * q + cn,
    ;
    lemma_mod_multiples_vanish(-q, an as int, big);
    lemma_small_mod(an, big as nat);
    assert(sub_mod(cn, y, radix, m) == an);
    lemma_str_of_num(a, radix);
}

} // verus!
