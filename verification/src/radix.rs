//! The radix of a numeral string: its class, the shortest string it admits,
//! and the byte length that carries one half of a string.

use vstd::prelude::*;
use vstd::arithmetic::power::*;
use vstd::arithmetic::power2::*;
use crate::domain::{bytes_for_power, lemma_byte_len_pow2, spec_b};
use crate::error::{InvalidRadix, NumeralStringError};

verus! {

/// The least number of numerals that any radix admits.
pub const MIN_NS_LEN: u32 = 2;

/// The greatest number of numerals that any radix admits.
pub const MAX_NS_LEN: usize = 0xffff_ffff;

/// The least admitted value of `radix^min_len`.
pub const MIN_NS_DOMAIN_SIZE: u64 = 1_000_000;

/// The least `k` with `2^k >= MIN_NS_DOMAIN_SIZE`.
pub const MIN_RADIX_2_NS_LEN: u32 = 20;

/// The greatest radix.
pub const MAX_RADIX: u32 = 0x1_0000;

/// `radix` is `2^k` for some `k` in `[1, 16]`.
pub open spec fn is_power_of_two(radix: nat) -> bool {
    exists|k: nat| 1 <= k <= 16 && radix == pow(2, k)
}

/// `m` is the least length, not below two, whose domain `radix^m` reaches
/// the floor of one million.
pub open spec fn is_min_len(radix: nat, m: nat) -> bool {
    &&& m >= 2
    &&& pow(radix as int, m) >= 1_000_000
    &&& (m == 2 || pow(radix as int, (m - 1) as nat) < 1_000_000)
}

/// A radix in `[2, 2^16]`, classified.
#[derive(Debug, Clone, Copy, PartialEq, Eq, Structural)]
pub enum Radix {
    /// Any radix that is not a power of two.
    Any { radix: u32, min_len: u32 },
    /// A radix `2^log_radix` with `log_radix` in `[1, 16]`.
    PowerTwo { radix: u32, min_len: u32, log_radix: u8 },
}

impl Radix {
    /// The radix as a number.
    pub open spec fn spec_radix(&self) -> u32 {
        match *self {
            Radix::Any { radix, .. } => radix,
            Radix::PowerTwo { radix, .. } => radix,
        }
    }

    /// The shortest numeral string that this radix admits.
    pub open spec fn spec_min_len(&self) -> u32 {
        match *self {
            Radix::Any { min_len, .. } => min_len,
            Radix::PowerTwo { min_len, .. } => min_len,
        }
    }

    /// The invariant of a classified radix.
    pub open spec fn wf(&self) -> bool {
        &&& 2 <= self.spec_radix() <= MAX_RADIX
        &&& is_min_len(self.spec_radix() as nat, self.spec_min_len() as nat)
        &&& match *self {
            Radix::Any { radix, .. } => !is_power_of_two(radix as nat),
            Radix::PowerTwo { radix, log_radix, .. } => {
                &&& 1 <= log_radix <= 16
                &&& radix == pow(2, log_radix as nat)
            },
        }
    }

    /// Classifies `radix`, or refuses it when it lies outside `[2, 2^16]`.
    pub fn from_u32(radix: u32) -> (r: Result<Radix, InvalidRadix>)
        ensures
            !(2 <= radix <= MAX_RADIX) ==> r == Err::<Radix, InvalidRadix>(InvalidRadix(radix)),
            2 <= radix <= MAX_RADIX ==> (r matches Ok(rx) && rx.wf() && rx.spec_radix() == radix
                && (rx is PowerTwo <==> is_power_of_two(radix as nat))),
            r matches Ok(Radix::PowerTwo { min_len, log_radix, .. }) ==> min_len == if (19
                + log_radix) / (log_radix as int) < 2 {
                2
            } else {
                (19 + log_radix) / (log_radix as int)
            },
    {
        if radix < 2 || radix > MAX_RADIX {
            return Err(InvalidRadix(radix));
        }
        let mut p: u32 = 2;
        let mut log_radix: u8 = 1;
        proof {
            lemma_pow1(2);
            lemma_pow0(2);
        }
        while p < radix
            invariant
                2 <= radix <= MAX_RADIX,
                1 <= log_radix <= 16,
                p == pow(2, log_radix as nat),
                pow(2, (log_radix - 1) as nat) < radix,
                p <= MAX_RADIX,
            decreases MAX_RADIX - p,
        {
            proof {
                lemma_pow_adds(2, log_radix as nat, 1);
                lemma_pow1(2);
                lemma2_to64();
                lemma_pow2(17);
                lemma_pow2(16);
                if log_radix >= 16 {
                    lemma_pow_increases(2, 16, log_radix as nat);
                }
            }
            p = p * 2;
            log_radix = log_radix + 1;
        }
        if p == radix {
            let m: u32 = (MIN_RADIX_2_NS_LEN + (log_radix as u32) - 1) / (log_radix as u32);
            let min_len: u32 = if m < MIN_NS_LEN { MIN_NS_LEN } else { m };
            proof {
                lemma_power_two_min_len(log_radix as nat, min_len as nat);
            }
            Ok(Radix::PowerTwo { radix, min_len, log_radix })
        } else {
            proof {
                let lr = log_radix as nat;
                assert forall|k: nat| 1 <= k <= 16 implies radix != #[trigger] pow(2, k) by {
                    if k < lr {
                        lemma_pow_increases(2, k, (lr - 1) as nat);
                    } else {
                        lemma_pow_increases(2, lr, k);
                    }
                }
            }
            let radix_u64: u64 = radix as u64;
            let mut min_len: u32 = 1;
            let mut domain: u64 = radix_u64;
            proof {
                lemma_pow1(radix as int);
                lemma_pow1(2);
            }
            while domain < MIN_NS_DOMAIN_SIZE
                invariant
                    2 <= radix <= MAX_RADIX,
                    radix_u64 == radix,
                    !is_power_of_two(radix as nat),
                    1 <= min_len <= 20,
                    domain == pow(radix as int, min_len as nat),
                    domain >= pow(2, min_len as nat),
                    min_len == 1 || pow(radix as int, (min_len - 1) as nat) < 1_000_000,
                decreases 20 - min_len,
            {
                proof {
                    lemma_pow_adds(radix as int, min_len as nat, 1);
                    lemma_pow1(radix as int);
                    lemma_pow_positive(2, min_len as nat);
                    lemma_pow_adds(2, min_len as nat, 1);
                    lemma_pow1(2);
                    lemma2_to64();
                    lemma_pow2(20);
                    if min_len >= 20 {
                        lemma_pow_increases(2, 20, min_len as nat);
                    }
                    assert(domain * radix_u64 >= domain * 2) by (nonlinear_arith)
                        requires radix_u64 >= 2, domain > 0;
                    assert(domain * radix_u64 < 1_000_000 * 0x1_0001) by (nonlinear_arith)
                        requires radix_u64 <= 0x1_0000, 0 <= domain < 1_000_000;
                }
                domain = domain * radix_u64;
                min_len = min_len + 1;
            }
            Ok(Radix::Any { radix, min_len })
        }
    }

    /// Whether a string of `ns_len` numerals has an admitted length.
    pub fn check_ns_length(&self, ns_len: usize) -> (r: Result<(), NumeralStringError>)
        ensures
            ns_len < self.spec_min_len() ==> r == Err::<(), NumeralStringError>(
                NumeralStringError::TooShort { ns_len, min_len: self.spec_min_len() as usize },
            ),
            self.spec_min_len() <= ns_len && ns_len > MAX_NS_LEN ==> r == Err::<(), NumeralStringError>(
                NumeralStringError::TooLong { ns_len, max_len: MAX_NS_LEN },
            ),
            self.spec_min_len() <= ns_len <= MAX_NS_LEN ==> r == Ok::<(), NumeralStringError>(()),
    {
        let min_len: usize = match *self {
            Radix::Any { min_len, .. } => min_len as usize,
            Radix::PowerTwo { min_len, .. } => min_len as usize,
        };
        let max_len: usize = MAX_NS_LEN;
        if ns_len < min_len {
            Err(NumeralStringError::TooShort { ns_len, min_len })
        } else if ns_len > max_len {
            Err(NumeralStringError::TooLong { ns_len, max_len })
        } else {
            Ok(())
        }
    }

    /// The number of bytes that carry a half of `v` numerals:
    /// `ceil(ceil(v * log2(radix)) / 8)`. For a power of two this is
    /// `(v * log_radix + 7) / 8`.
    pub fn calculate_b(&self, v: usize) -> (b: usize)
        requires
            self.wf(),
            2 * v <= usize::MAX,
        ensures
            b == spec_b(self.spec_radix() as nat, v as nat),
            b <= 2 * v,
            *self matches Radix::PowerTwo { log_radix, .. } ==> b == (v * log_radix + 7) / 8,
    {
        match *self {
            Radix::Any { radix, .. } => bytes_for_power(radix, v),
            Radix::PowerTwo { log_radix, .. } => {
                proof {
                    lemma_pow_multiplies(2, log_radix as nat, v as nat);
                    lemma_byte_len_pow2(log_radix as nat * v as nat);
                    assert(log_radix as nat * v as nat == v * log_radix) by (nonlinear_arith);
                    assert(v * log_radix <= v * 16) by (nonlinear_arith)
                        requires
                            log_radix <= 16,
                    ;
                }
                let bits: u128 = (v as u128) * (log_radix as u128) + 7;
                (bits / 8) as usize
            },
        }
    }

    /// The radix as a number.
    pub fn to_u32(&self) -> (r: u32)
        ensures
            r == self.spec_radix(),
    {
        match *self {
            Radix::Any { radix, .. } => radix,
            Radix::PowerTwo { radix, .. } => radix,
        }
    }

    /// The shortest numeral string that this radix admits.
    pub fn min_len(&self) -> (r: u32)
        ensures
            r == self.spec_min_len(),
    {
        match *self {
            Radix::Any { min_len, .. } => min_len,
            Radix::PowerTwo { min_len, .. } => min_len,
        }
    }
}

/// For the radix `2^lr`, the length `max(ceil(20 / lr), 2)` is the least
/// admitted one.
pub proof fn lemma_power_two_min_len(lr: nat, m: nat)
    requires
        1 <= lr <= 16,
        m == if (19 + lr) / lr < 2 { 2 } else { (19 + lr) / lr },
    ensures
        is_min_len(pow(2, lr) as nat, m),
{
    lemma_pow_positive(2, lr);
    lemma_pow_multiplies(2, lr, m);
    lemma2_to64();
    lemma_pow2(20);
    lemma_pow2(19);
    assert(lr * m >= 20) by (nonlinear_arith)
        requires 1 <= lr <= 16, m >= (19 + lr) / lr, m >= 2;
    lemma_pow_increases(2, 20, lr * m);
    if m != 2 {
        lemma_pow_multiplies(2, lr, (m - 1) as nat);
        assert(lr * (m - 1) <= 19) by (nonlinear_arith)
            requires 1 <= lr <= 16, m == (19 + lr) / lr, m > 2;
        lemma_pow_increases(2, (lr * (m - 1)) as nat, 19);
    }
}

} // verus!
