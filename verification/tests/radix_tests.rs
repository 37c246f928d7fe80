use fpe_ff1::radix::{MAX_NS_LEN, MIN_NS_DOMAIN_SIZE, MIN_NS_LEN, MIN_RADIX_2_NS_LEN};
use fpe_ff1::{InvalidRadix, NumeralStringError, Radix};

#[test]
fn radix() {
    assert_eq!(Radix::from_u32(1), Err(InvalidRadix(1)));
    assert_eq!(
        Radix::from_u32(2),
        Ok(Radix::PowerTwo {
            radix: 2,
            min_len: MIN_RADIX_2_NS_LEN,
            log_radix: 1,
        })
    );
    assert_eq!(
        Radix::from_u32(3),
        Ok(Radix::Any {
            radix: 3,
            min_len: 13,
        })
    );
    assert_eq!(
        Radix::from_u32(4),
        Ok(Radix::PowerTwo {
            radix: 4,
            min_len: MIN_RADIX_2_NS_LEN / 2,
            log_radix: 2,
        })
    );
    assert_eq!(
        Radix::from_u32(5),
        Ok(Radix::Any {
            radix: 5,
            min_len: 9,
        })
    );
    assert_eq!(
        Radix::from_u32(6),
        Ok(Radix::Any {
            radix: 6,
            min_len: 8,
        })
    );
    assert_eq!(
        Radix::from_u32(7),
        Ok(Radix::Any {
            radix: 7,
            min_len: 8,
        })
    );
    assert_eq!(
        Radix::from_u32(8),
        Ok(Radix::PowerTwo {
            radix: 8,
            min_len: 7,
            log_radix: 3,
        })
    );
    assert_eq!(
        Radix::from_u32(10),
        Ok(Radix::Any {
            radix: 10,
            min_len: 6,
        })
    );
    assert_eq!(
        Radix::from_u32(32768),
        Ok(Radix::PowerTwo {
            radix: 32768,
            min_len: MIN_NS_LEN,
            log_radix: 15,
        })
    );
    assert_eq!(
        Radix::from_u32(65535),
        Ok(Radix::Any {
            radix: 65535,
            min_len: MIN_NS_LEN,
        })
    );
    assert_eq!(
        Radix::from_u32(65536),
        Ok(Radix::PowerTwo {
            radix: 65536,
            min_len: MIN_NS_LEN,
            log_radix: 16,
        })
    );
    assert_eq!(Radix::from_u32(65537), Err(InvalidRadix(65537)));
}

#[test]
fn radix_zero_is_refused() {
    assert_eq!(Radix::from_u32(0), Err(InvalidRadix(0)));
    assert_eq!(Radix::from_u32(u32::MAX), Err(InvalidRadix(u32::MAX)));
}

#[test]
fn power_of_two_is_classified_exactly() {
    for r in 2u32..=65536 {
        let rx = Radix::from_u32(r).unwrap();
        assert_eq!(matches!(rx, Radix::PowerTwo { .. }), r.count_ones() == 1);
        assert_eq!(rx.to_u32(), r);
        if let Radix::PowerTwo { log_radix, .. } = rx {
            assert_eq!(1u32 << log_radix, r);
        }
    }
}

#[test]
fn min_len_reaches_the_domain_floor() {
    for r in 2u32..=65536 {
        let rx = Radix::from_u32(r).unwrap();
        let m = rx.min_len();
        assert!(m >= 2);
        assert!((r as u128).pow(m) >= 1_000_000);
        assert!(m == 2 || (r as u128).pow(m - 1) < 1_000_000);
    }
}

#[test]
fn check_ns_length_bounds() {
    let rx = Radix::from_u32(10).unwrap();
    assert_eq!(
        rx.check_ns_length(5),
        Err(NumeralStringError::TooShort { ns_len: 5, min_len: 6 })
    );
    assert_eq!(rx.check_ns_length(6), Ok(()));
    assert_eq!(rx.check_ns_length(MAX_NS_LEN), Ok(()));
    assert_eq!(
        rx.check_ns_length(MAX_NS_LEN + 1),
        Err(NumeralStringError::TooLong { ns_len: MAX_NS_LEN + 1, max_len: MAX_NS_LEN })
    );
    assert_eq!(
        rx.check_ns_length(0),
        Err(NumeralStringError::TooShort { ns_len: 0, min_len: 6 })
    );
}

#[test]
fn calculate_b_power_of_two() {
    let r2 = Radix::from_u32(2).unwrap();
    assert_eq!(r2.calculate_b(0), 0);
    assert_eq!(r2.calculate_b(1), 1);
    assert_eq!(r2.calculate_b(8), 1);
    assert_eq!(r2.calculate_b(9), 2);
    assert_eq!(r2.calculate_b(36), 5);
    let r16 = Radix::from_u32(65536).unwrap();
    assert_eq!(r16.calculate_b(1), 2);
    assert_eq!(r16.calculate_b(3), 6);
    let r8 = Radix::from_u32(8).unwrap();
    assert_eq!(r8.calculate_b(7), 3);
}

#[test]
fn calculate_b_any_radix() {
    let r10 = Radix::from_u32(10).unwrap();
    assert_eq!(r10.calculate_b(0), 0);
    assert_eq!(r10.calculate_b(1), 1);
    assert_eq!(r10.calculate_b(2), 1);
    assert_eq!(r10.calculate_b(3), 2);
    assert_eq!(r10.calculate_b(5), 3);
    assert_eq!(r10.calculate_b(10), 5);
    let r36 = Radix::from_u32(36).unwrap();
    assert_eq!(r36.calculate_b(10), 7);
    let r3 = Radix::from_u32(3).unwrap();
    assert_eq!(r3.calculate_b(100), 20);
}

#[test]
fn calculate_b_is_the_ceiling_of_the_logarithm() {
    for r in [3u32, 5, 6, 7, 10, 26, 36, 62, 255, 257, 1000, 65535] {
        let rx = Radix::from_u32(r).unwrap();
        for v in 0usize..60 {
            let expected = (v as f64 * f64::from(r).log2() / 8f64).ceil() as usize;
            assert_eq!(rx.calculate_b(v), expected, "radix {} v {}", r, v);
        }
    }
    for r in [2u32, 4, 16, 256, 1024, 65536] {
        let rx = Radix::from_u32(r).unwrap();
        for v in 0usize..60 {
            let expected = (v as f64 * f64::from(r).log2() / 8f64).ceil() as usize;
            assert_eq!(rx.calculate_b(v), expected, "radix {} v {}", r, v);
        }
    }
}

#[test]
fn binary_minimum_length_reaches_the_domain_floor() {
    assert!((1u64 << MIN_RADIX_2_NS_LEN) >= MIN_NS_DOMAIN_SIZE);
    assert!((1u64 << (MIN_RADIX_2_NS_LEN - 1)) < MIN_NS_DOMAIN_SIZE);
}
