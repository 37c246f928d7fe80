use fpe_ff1::domain::bytes_for_power;
use fpe_ff1::domain::mul_add;

#[test]
fn mul_add_on_little_endian_bytes() {
    assert_eq!(mul_add(&vec![], 10, 9), vec![9]);
    assert_eq!(mul_add(&vec![], 10, 0), Vec::<u8>::new());
    assert_eq!(mul_add(&vec![255], 256, 255), vec![255, 255]);
    assert_eq!(mul_add(&vec![0xe8, 0x03], 1000, 1), vec![0x41, 0x42, 0x0f]);
    assert_eq!(mul_add(&vec![255, 255], 65536, 65535), vec![255, 255, 255, 255]);
    assert_eq!(mul_add(&vec![1], 1, 0), vec![1]);
}

#[test]
fn bytes_for_power_counts_bytes() {
    assert_eq!(bytes_for_power(10, 0), 0);
    assert_eq!(bytes_for_power(10, 3), 2);
    assert_eq!(bytes_for_power(256, 3), 3);
    assert_eq!(bytes_for_power(255, 1), 1);
    assert_eq!(bytes_for_power(257, 1), 2);
    assert_eq!(bytes_for_power(65536, 4), 8);
}
