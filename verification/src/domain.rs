//! How many bytes carry one half of a numeral string: the byte length of the
//! greatest number that `v` numerals can write.

use vstd::prelude::*;
use vstd::arithmetic::div_mod::*;
use vstd::arithmetic::power::*;
use vstd::arithmetic::power2::*;

verus! {

/// The number of bytes that `n` takes in base 256, none for zero.
pub open spec fn byte_len(n: nat) -> nat
    decreases n,
{
    if n == 0 {
        0
    } else {
        1 + byte_len(n / 256)
    }
}

/// The least `b` with `256^b >= radix^v`, which is
/// `ceil(v * log2(radix) / 8)`: the byte length of `radix^v - 1`.
pub open spec fn spec_b(radix: nat, v: nat) -> nat {
    byte_len((pow(radix as int, v) - 1) as nat)
}

/// The length of the expanded round key: `4 * ceil(b / 4) + 4`.
pub open spec fn spec_d(b: nat) -> nat {
    4 * ((b + 3) / 4) + 4
}

/// The number that `s` writes in base 256, least significant byte first.
pub open spec fn le_val(s: Seq<u8>) -> nat
    decreases s.len(),
{
    if s.len() == 0 {
        0
    } else {
        s[0] as nat + 256 * le_val(s.skip(1))
    }
}

/// The most significant byte of `s`, if there is one, is not zero.
pub open spec fn no_top_zero(s: Seq<u8>) -> bool {
    s.len() == 0 || s.last() != 0
}

/// A byte pushed at the top counts `256^len` times.
pub proof fn lemma_le_val_push(s: Seq<u8>, x: u8)
    ensures
        le_val(s.push(x)) == le_val(s) + x * pow(256, s.len()),
    decreases s.len(),
{
    let t = s.push(x);
    if s.len() == 0 {
        lemma_pow0(256);
        assert(t.skip(1) =~= Seq::<u8>::empty());
        assert(le_val(t.skip(1)) == 0);
        assert(le_val(t) == x as nat);
    } else {
        lemma_le_val_push(s.skip(1), x);
        assert(t.skip(1) =~= s.skip(1).push(x));
        lemma_pow_adds(256, 1, (s.len() - 1) as nat);
        lemma_pow1(256);
        let p = pow(256, (s.len() - 1) as nat);
        let rest = le_val(s.skip(1)) as int;
        let xv = x as int;
        assert(256 * (rest + xv * p) == 256 * rest + xv * (256 * p)) by (nonlinear_arith);
        assert(pow(256, s.len()) == 256 * p);
        assert(le_val(t) == s[0] as nat + 256 * le_val(t.skip(1)));
        assert(le_val(s) == s[0] as nat + 256 * le_val(s.skip(1)));
    }
}

/// Without a zero at the top, the bytes of a number are as many as its byte
/// length.
pub proof fn lemma_byte_len_le_val(s: Seq<u8>)
    requires
        no_top_zero(s),
    ensures
        byte_len(le_val(s)) == s.len(),
    decreases s.len(),
{
    if s.len() > 0 {
        let rest = s.skip(1);
        if rest.len() > 0 {
            assert(rest.last() == s.last());
        }
        lemma_byte_len_le_val(rest);
        let n = le_val(s);
        if rest.len() > 0 {
            assert(byte_len(le_val(rest)) > 0);
            assert(le_val(rest) > 0);
        }
        assert(n > 0);
        lemma_fundamental_div_mod_converse(n as int, 256, le_val(rest) as int, s[0] as int);
    }
}

/// The greatest number of `k` bits takes `ceil(k / 8)` bytes.
pub proof fn lemma_byte_len_pow2(k: nat)
    ensures
        byte_len((pow(2, k) - 1) as nat) == (k + 7) / 8,
    decreases k,
{
    lemma2_to64();
    lemma_pow2(8);
    lemma_pow_positive(2, k);
    if k == 0 {
        lemma_pow0(2);
    } else if k <= 8 {
        lemma_pow_increases(2, 1, k);
        lemma_pow_increases(2, k, 8);
        lemma_pow1(2);
        let n = (pow(2, k) - 1) as nat;
        assert(n / 256 == 0);
        assert(byte_len(n / 256) == 0);
    } else {
        let j = (k - 8) as nat;
        lemma_byte_len_pow2(j);
        lemma_pow_adds(2, 8, j);
        lemma_pow_positive(2, j);
        let x = pow(2, j);
        let n = (pow(2, k) - 1) as nat;
        lemma_fundamental_div_mod_converse(n as int, 256, x - 1, 255);
        assert(n / 256 == (x - 1) as nat);
    }
}

/// `acc * factor + addend`, on numbers written in base 256 with the least
/// significant byte first.
pub fn mul_add(acc: &Vec<u8>, factor: u32, addend: u32) -> (out: Vec<u8>)
    requires
        1 <= factor <= 0x1_0000,
        addend < 0x1_0000,
        no_top_zero(acc@),
    ensures
        le_val(out@) == le_val(acc@) * factor + addend,
        no_top_zero(out@),
        out@.len() <= acc@.len() + 2,
{
    let mut out: Vec<u8> = Vec::new();
    let mut carry: u32 = addend;
    let mut i: usize = 0;
    proof {
        lemma_pow0(256);
        assert(acc@.take(0) =~= Seq::<u8>::empty());
        assert(le_val(acc@.take(0)) == 0);
        assert(le_val(out@) == 0);
    }
    while i < acc.len()
        invariant
            i <= acc@.len(),
            out@.len() == i,
            carry < 0x1_0000,
            1 <= factor <= 0x1_0000,
            le_val(out@) + carry * pow(256, i as nat) == le_val(acc@.take(i as int)) * factor
                + addend,
            i > 0 && carry == 0 && acc@[i - 1] != 0 ==> out@.last() != 0,
        decreases acc.len() - i,
    {
        let a = acc[i];
        assert((a as u32) * factor <= 255 * 0x1_0000) by (nonlinear_arith)
            requires
                a <= 255,
                factor <= 0x1_0000,
        ;
        let t: u32 = (a as u32) * factor + carry;
        let low: u8 = (t % 256) as u8;
        proof {
            let p = pow(256, i as nat);
            lemma_le_val_push(out@, low);
            lemma_le_val_push(acc@.take(i as int), a);
            assert(acc@.take(i + 1) =~= acc@.take(i as int).push(a));
            lemma_pow_adds(256, i as nat, 1);
            lemma_pow1(256);
            let hi = (t / 256) as int;
            let lo = low as int;
            let base = le_val(acc@.take(i as int)) as int;
            let f = factor as int;
            let c = carry as int;
            let o = le_val(out@) as int;
            let av = a as int;
            assert((o + lo * p) + hi * (p * 256) == (base + av * p) * f + addend)
                by (nonlinear_arith)
                requires
                    o + c * p == base * f + addend,
                    lo + 256 * hi == av * f + c,
            ;
            if t / 256 == 0 && a != 0 {
                assert(av * f >= 1) by (nonlinear_arith)
                    requires
                        av >= 1,
                        f >= 1,
                ;
            }
        }
        out.push(low);
        carry = t / 256;
        i = i + 1;
    }
    assert(acc@.take(acc@.len() as int) =~= acc@);
    let ghost target = le_val(acc@) * factor + addend;
    let ghost start = out@.len();
    while carry > 0
        invariant
            carry < 0x1_0000,
            le_val(out@) + carry * pow(256, out@.len()) == target,
            carry == 0 ==> no_top_zero(out@),
            start == acc@.len(),
            out@.len() <= start + 2,
            carry >= 256 ==> out@.len() == start,
            carry > 0 ==> out@.len() <= start + 1,
        decreases carry,
    {
        let low: u8 = (carry % 256) as u8;
        proof {
            let p = pow(256, out@.len());
            lemma_le_val_push(out@, low);
            lemma_pow_adds(256, out@.len(), 1);
            lemma_pow1(256);
            let hi = (carry / 256) as int;
            let lo = low as int;
            let c = carry as int;
            let o = le_val(out@) as int;
            assert((o + lo * p) + hi * (p * 256) == o + c * p) by (nonlinear_arith)
                requires
                    lo + 256 * hi == c,
            ;
        }
        out.push(low);
        carry = carry / 256;
    }
    out
}

/// The byte length of `radix^v - 1`.
pub fn bytes_for_power(radix: u32, v: usize) -> (b: usize)
    requires
        2 <= radix <= 0x1_0000,
    ensures
        b == spec_b(radix as nat, v as nat),
        b <= 2 * v,
{
    let mut acc: Vec<u8> = Vec::new();
    let mut k: usize = 0;
    proof {
        lemma_pow0(radix as int);
    }
    while k < v
        invariant
            k <= v,
            2 <= radix <= 0x1_0000,
            no_top_zero(acc@),
            le_val(acc@) == pow(radix as int, k as nat) - 1,
            acc@.len() <= 2 * k,
        decreases v - k,
    {
        proof {
            lemma_pow_adds(radix as int, k as nat, 1);
            lemma_pow1(radix as int);
            let p = pow(radix as int, k as nat);
            let r = radix as int;
            assert((p - 1) * r + (r - 1) == p * r - 1) by (nonlinear_arith);
        }
        acc = mul_add(&acc, radix, radix - 1);
        k = k + 1;
    }
    proof {
        lemma_byte_len_le_val(acc@);
    }
    acc.len()
}

} // verus!
