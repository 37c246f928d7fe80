use fpe_ff1::digits::{convert, div_small};

#[test]
fn div_small_divides() {
    assert_eq!(div_small(&vec![1, 0, 0, 0], 10, 7), (vec![0, 1, 4, 2], 6));
    assert_eq!(div_small(&vec![], 10, 7), (vec![], 0));
    assert_eq!(div_small(&vec![255, 255], 256, 256), (vec![0, 255], 255));
    // Digits need not be below the base.
    assert_eq!(div_small(&vec![12, 15], 10, 10), (vec![1, 3], 5));
}

#[test]
fn convert_changes_base() {
    assert_eq!(convert(vec![1, 0, 0, 0], 10, 256, 2), vec![0x03, 0xe8]);
    assert_eq!(convert(vec![1, 0, 0, 0], 10, 256, 1), vec![0xe8]);
    assert_eq!(convert(vec![0x03, 0xe8], 256, 10, 5), vec![0, 1, 0, 0, 0]);
    assert_eq!(convert(vec![9, 9], 10, 10, 3), vec![0, 9, 9]);
    assert_eq!(convert(vec![18, 1], 10, 10, 3), vec![1, 8, 1]);
    assert_eq!(convert(vec![7], 10, 2, 0), Vec::<u32>::new());
}
