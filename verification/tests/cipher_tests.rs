use aes::Aes128;
use cipher::generic_array::GenericArray;
use cipher::{BlockEncryptMut, KeyIvInit};
use fpe_ff1::cipher::Cipher;
use fpe_ff1::expand::{be_bytes, generate_s};
use fpe_ff1::prf::Prf;

fn hex(s: &str) -> Vec<u8> {
    let digits: Vec<u8> = s
        .bytes()
        .filter(|c| !c.is_ascii_whitespace())
        .map(|c| (c as char).to_digit(16).unwrap() as u8)
        .collect();
    digits.chunks(2).map(|p| p[0] * 16 + p[1]).collect()
}

fn block(s: &str) -> [u8; 16] {
    let mut out = [0u8; 16];
    out.copy_from_slice(&hex(s));
    out
}

#[test]
fn cipher_new_goes_by_key_length() {
    assert!(matches!(Cipher::new(&[0u8; 16]), Some(Cipher::Aes128(_))));
    assert!(matches!(Cipher::new(&[0u8; 24]), Some(Cipher::Aes192(_))));
    assert!(matches!(Cipher::new(&[0u8; 32]), Some(Cipher::Aes256(_))));
    assert!(Cipher::new(&[0u8; 15]).is_none());
    assert!(Cipher::new(&[]).is_none());
    assert!(Cipher::new(&[0u8; 33]).is_none());
}

#[test]
fn aes128_known_answer() {
    let c = Cipher::new(&hex("000102030405060708090a0b0c0d0e0f")).unwrap();
    let pt = block("00112233445566778899aabbccddeeff");
    assert_eq!(c.encrypt_block(&pt), block("69c4e0d86a7b0430d8cdb78070b4c55a"));
}

#[test]
fn aes192_known_answer() {
    let c = Cipher::new(&hex("000102030405060708090a0b0c0d0e0f1011121314151617")).unwrap();
    let pt = block("00112233445566778899aabbccddeeff");
    assert_eq!(c.encrypt_block(&pt), block("dda97ca4864cdfe06eaf70a0ec0d7191"));
}

#[test]
fn aes256_known_answer() {
    let c = Cipher::new(&hex(
        "000102030405060708090a0b0c0d0e0f101112131415161718191a1b1c1d1e1f",
    ))
    .unwrap();
    let pt = block("00112233445566778899aabbccddeeff");
    assert_eq!(c.encrypt_block(&pt), block("8ea2b7ca516745bfeafc49904b496089"));
}

#[test]
fn cbc_step_encrypts_the_xor() {
    let keys: [&[u8]; 3] = [&[7u8; 16], &[8u8; 24], &[9u8; 32]];
    for key in keys {
        let c = Cipher::new(key).unwrap();
        let iv = block("0f0e0d0c0b0a09080706050403020100");
        let data = block("00112233445566778899aabbccddeeff");
        let mut x = [0u8; 16];
        for i in 0..16 {
            x[i] = iv[i] ^ data[i];
        }
        let out = c.cbc_encrypt_block(&iv, &data);
        assert_eq!(out, c.encrypt_block(&x));
        assert_ne!(out, data);
        assert_ne!(out, c.encrypt_block(&data));
    }
}

#[test]
fn cbc_step_known_answer() {
    // First block of the CBC-AES128 example of NIST SP 800-38A.
    let c = Cipher::new(&hex("2b7e151628aed2a6abf7158809cf4f3c")).unwrap();
    let iv = block("000102030405060708090a0b0c0d0e0f");
    let data = block("6bc1bee22e409f96e93d7e117393172a");
    assert_eq!(c.cbc_encrypt_block(&iv, &data), block("7649abac8119b246cee98e9b12e9197d"));
}

#[test]
fn prf_agrees_with_cbc_mac() {
    let key = hex("2b7e151628aed2a6abf7158809cf4f3c");
    let data: Vec<u8> = (0u8..80).collect();
    let mut blocks: Vec<_> = data.chunks(16).map(GenericArray::clone_from_slice).collect();
    let mut reference = cbc::Encryptor::<Aes128>::new_from_slices(&key, &[0u8; 16]).unwrap();
    reference.encrypt_blocks_mut(&mut blocks);
    let expected: [u8; 16] = blocks[4].into();

    let c = Cipher::new(&key).unwrap();
    let mut prf = Prf::new(&c);
    prf.update(&data[..5]);
    prf.update(&data[5..5]);
    prf.update(&data[5..37]);
    prf.update(&data[37..]);
    assert_eq!(prf.output(), expected);

    let mut whole = Prf::new(&c);
    whole.update(&data);
    assert_eq!(whole.output(), expected);
}

#[test]
fn prf_of_nothing_is_zero() {
    let c = Cipher::new(&[1u8; 16]).unwrap();
    assert_eq!(Prf::new(&c).output(), [0u8; 16]);
}

#[test]
fn prf_copy_is_independent() {
    let c = Cipher::new(&[1u8; 32]).unwrap();
    let mut prf = Prf::new(&c);
    prf.update(&[3u8; 16]);
    let saved = prf.output();
    let mut other = prf;
    other.update(&[4u8; 16]);
    assert_eq!(prf.output(), saved);
    assert_ne!(other.output(), saved);
    assert_eq!(other.output(), c.cbc_encrypt_block(&saved, &[4u8; 16]));
}

#[test]
fn be_bytes_pads_and_truncates() {
    assert_eq!(be_bytes(0x0102_03, 3), vec![1, 2, 3]);
    assert_eq!(be_bytes(10, 3), vec![0, 0, 10]);
    assert_eq!(be_bytes(0x1_0000, 3), vec![1, 0, 0]);
    assert_eq!(be_bytes(0x0102_0304_05, 4), vec![2, 3, 4, 5]);
    assert_eq!(be_bytes(77, 0), Vec::<u8>::new());
    assert_eq!(be_bytes(258, 1), vec![2]);
}

#[test]
fn generate_s_expands_by_counter_blocks() {
    let c = Cipher::new(&[5u8; 16]).unwrap();
    let r = block("00112233445566778899aabbccddeeff");
    assert_eq!(generate_s(&c, &r, 0), Vec::<u8>::new());
    assert_eq!(generate_s(&c, &r, 4), r[..4].to_vec());
    assert_eq!(generate_s(&c, &r, 16), r.to_vec());
    let mut r1 = r;
    r1[15] ^= 1;
    let mut r2 = r;
    r2[15] ^= 2;
    let mut expected = r.to_vec();
    expected.extend_from_slice(&c.encrypt_block(&r1));
    expected.extend_from_slice(&c.encrypt_block(&r2));
    assert_eq!(generate_s(&c, &r, 48), expected);
    assert_eq!(generate_s(&c, &r, 40), expected[..40].to_vec());
    assert_eq!(generate_s(&c, &r, 17), expected[..17].to_vec());
}
