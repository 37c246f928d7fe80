//! Arithmetic on numbers written as digit strings, most significant first:
//! division by a small number, and change of base.

use vstd::prelude::*;
use vstd::arithmetic::div_mod::*;
use vstd::arithmetic::power::*;
use crate::numeral::{lemma_num_of_str, lemma_str_of_num, lemma_str_radix_shape, num_radix, str_radix, valid_numerals};

verus! {

/// The bound on a digit in the middle of a computation.
pub const DIGIT_BOUND: u32 = 0x10_0000;

/// Machine digits as numbers.
pub open spec fn digits_nat(s: Seq<u32>) -> Seq<nat> {
    Seq::new(s.len(), |i: int| s[i] as nat)
}

/// Every digit is below the bound.
pub open spec fn bounded(s: Seq<u32>) -> bool {
    forall|i: int| 0 <= i < s.len() ==> s[i] < DIGIT_BOUND
}

/// A digit pushed at the end is the least significant one.
pub proof fn lemma_num_push(s: Seq<u32>, x: u32, base: nat)
    ensures
        num_radix(digits_nat(s.push(x)), base) == num_radix(digits_nat(s), base) * base + x,
{
    assert(digits_nat(s.push(x)).drop_last() =~= digits_nat(s));
}

/// The low `m` numerals of a number are those of its residue modulo
/// `radix^m`.
pub proof fn lemma_str_radix_mod(n: nat, radix: nat, m: nat)
    requires
        radix > 0,
    ensures
        str_radix(n, radix, m) == str_radix(n % (pow(radix as int, m) as nat), radix, m),
{
    let x = str_radix(n, radix, m);
    lemma_str_radix_shape(n, radix, m);
    lemma_num_of_str(n, radix, m);
    lemma_str_of_num(x, radix);
}

/// The number of a digitwise sum is the sum of the numbers.
pub proof fn lemma_num_sum(a: Seq<nat>, b: Seq<nat>, z: Seq<nat>, radix: nat)
    requires
        a.len() == b.len(),
        z.len() == a.len(),
        forall|i: int| 0 <= i < z.len() ==> z[i] == a[i] + b[i],
    ensures
        num_radix(z, radix) == num_radix(a, radix) + num_radix(b, radix),
    decreases z.len(),
{
    if z.len() > 0 {
        lemma_num_sum(a.drop_last(), b.drop_last(), z.drop_last(), radix);
        let x = num_radix(a.drop_last(), radix) as int;
        let y = num_radix(b.drop_last(), radix) as int;
        let r = radix as int;
        assert((x + y) * r == x * r + y * r) by (nonlinear_arith);
    }
}

/// A number and its digitwise complement add up to `radix^len - 1`.
pub proof fn lemma_num_complement(y: Seq<nat>, z: Seq<nat>, radix: nat)
    requires
        radix > 0,
        valid_numerals(y, radix),
        z.len() == y.len(),
        forall|i: int| 0 <= i < z.len() ==> z[i] == radix - 1 - y[i],
    ensures
        num_radix(z, radix) + num_radix(y, radix) + 1 == pow(radix as int, y.len()),
    decreases y.len(),
{
    if y.len() == 0 {
        lemma_pow0(radix as int);
    } else {
        lemma_num_complement(y.drop_last(), z.drop_last(), radix);
        lemma_pow_adds(radix as int, (y.len() - 1) as nat, 1);
        lemma_pow1(radix as int);
        let a = num_radix(z.drop_last(), radix) as int;
        let b = num_radix(y.drop_last(), radix) as int;
        let r = radix as int;
        assert((a + b + 1) * r == a * r + b * r + r) by (nonlinear_arith);
    }
}

/// Divides the number that `digits` writes in base `base` by `divisor`:
/// the quotient in the same base, and the remainder.
pub fn div_small(digits: &Vec<u32>, base: u32, divisor: u32) -> (res: (Vec<u32>, u32))
    requires
        2 <= base <= 0x1_0000,
        2 <= divisor <= 0x1_0000,
        bounded(digits@),
    ensures
        res.0@.len() == digits@.len(),
        bounded(res.0@),
        res.1 < divisor,
        num_radix(digits_nat(digits@), base as nat) == num_radix(digits_nat(res.0@), base as nat)
            * divisor + res.1,
{
    let mut q: Vec<u32> = Vec::new();
    let mut rem: u64 = 0;
    let mut i: usize = 0;
    assert(digits_nat(digits@.take(0)).len() == 0);
    assert(digits_nat(q@).len() == 0);
    assert(num_radix(digits_nat(digits@.take(0)), base as nat) == 0);
    assert(num_radix(digits_nat(q@), base as nat) == 0);
    while i < digits.len()
        invariant
            i <= digits@.len(),
            2 <= base <= 0x1_0000,
            2 <= divisor <= 0x1_0000,
            bounded(digits@),
            q@.len() == i,
            bounded(q@),
            rem < divisor,
            num_radix(digits_nat(digits@.take(i as int)), base as nat) == num_radix(
                digits_nat(q@),
                base as nat,
            ) * divisor + rem,
        decreases digits.len() - i,
    {
        let digit = digits[i];
        assert(rem * (base as u64) <= 0xffff * 0x1_0000) by (nonlinear_arith)
            requires
                rem <= 0xffff,
                base <= 0x1_0000,
        ;
        let cur: u64 = rem * (base as u64) + (digit as u64);
        let qd: u64 = cur / (divisor as u64);
        let next: u64 = cur % (divisor as u64);
        proof {
            lemma_num_push(digits@.take(i as int), digit, base as nat);
            assert(digits@.take(i + 1) =~= digits@.take(i as int).push(digit));
            lemma_fundamental_div_mod(cur as int, divisor as int);
            let dv = divisor as int;
            let bs = base as int;
            let big_q = num_radix(digits_nat(q@), base as nat) as int;
            let r0 = rem as int;
            let dg = digit as int;
            let qi = qd as int;
            let r1 = next as int;
            assert(qi * dv <= r0 * bs + dg);
            assert(qi < DIGIT_BOUND) by (nonlinear_arith)
                requires
                    qi * dv <= r0 * bs + dg,
                    0 <= r0 <= dv - 1,
                    2 <= dv,
                    2 <= bs <= 0x1_0000,
                    0 <= dg < 0x10_0000,
                    0 <= qi,
            ;
            lemma_num_push(q@, qd as u32, base as nat);
            assert((big_q * dv + r0) * bs + dg == (big_q * bs + qi) * dv + r1)
                by (nonlinear_arith)
                requires
                    r0 * bs + dg == dv * qi + r1,
            ;
        }
        q.push(qd as u32);
        rem = next;
        i = i + 1;
    }
    assert(digits@.take(digits@.len() as int) =~= digits@);
    (q, rem as u32)
}

/// The `len` least significant digits, in base `to`, of the number that
/// `digits` writes in base `from`.
pub fn convert(digits: Vec<u32>, from: u32, to: u32, len: usize) -> (out: Vec<u32>)
    requires
        2 <= from <= 0x1_0000,
        2 <= to <= 0x1_0000,
        bounded(digits@),
    ensures
        out@.len() == len,
        digits_nat(out@) == str_radix(
            num_radix(digits_nat(digits@), from as nat),
            to as nat,
            len as nat,
        ),
        forall|i: int| 0 <= i < out@.len() ==> out@[i] < to,
{
    let ghost total = num_radix(digits_nat(digits@), from as nat);
    let mut out: Vec<u32> = Vec::new();
    let mut i: usize = 0;
    while i < len
        invariant
            i <= len,
            out@.len() == i,
            forall|j: int| 0 <= j < out@.len() ==> out@[j] == 0,
        decreases len - i,
    {
        out.push(0u32);
        i = i + 1;
    }
    let mut cur = digits;
    let mut pos: usize = len;
    assert(str_radix(total, to as nat, len as nat) =~= str_radix(total, to as nat, pos as nat)
        + digits_nat(out@.skip(pos as int)));
    while pos > 0
        invariant
            pos <= len,
            2 <= from <= 0x1_0000,
            2 <= to <= 0x1_0000,
            bounded(cur@),
            out@.len() == len,
            forall|j: int| 0 <= j < out@.len() ==> out@[j] < to,
            str_radix(total, to as nat, len as nat) == str_radix(
                num_radix(digits_nat(cur@), from as nat),
                to as nat,
                pos as nat,
            ) + digits_nat(out@.skip(pos as int)),
        decreases pos,
    {
        let ghost before = out@;
        let ghost n = num_radix(digits_nat(cur@), from as nat);
        let (q, r) = div_small(&cur, from, to);
        pos = pos - 1;
        out.set(pos, r);
        proof {
            let qn = num_radix(digits_nat(q@), from as nat);
            lemma_fundamental_div_mod_converse(n as int, to as int, qn as int, r as int);
            let head = str_radix(qn, to as nat, pos as nat);
            assert(str_radix(n, to as nat, (pos + 1) as nat) == head.push(r as nat));
            assert(digits_nat(out@.skip(pos as int)) =~= seq![r as nat] + digits_nat(
                before.skip(pos + 1),
            ));
            assert(head.push(r as nat) + digits_nat(before.skip(pos + 1)) =~= head + digits_nat(
                out@.skip(pos as int),
            ));
        }
        cur = q;
    }
    assert(digits_nat(out@) =~= str_radix(total, to as nat, len as nat));
    out
}

} // verus!
