use aes::cipher::generic_array::GenericArray;
use aes::cipher::{BlockEncrypt, KeyInit};
use aes::Aes256;
use base64::engine::general_purpose;
use base64::Engine;
use manga_downloader::crypto::{
    data_key, decrypt_ciphertext, decrypt_data, md5_hex, md5_hex_str, pkcs7_unpad, to_lower_hex,
    DecryptStage,
};

fn encrypt(ts: u64, plain: &[u8]) -> String {
    let key_hex = format!("{:x}", md5::compute(format!("{ts}185Hcomic3PAPP7R")));
    let cipher = Aes256::new(GenericArray::from_slice(key_hex.as_bytes()));
    let pad = 16 - plain.len() % 16;
    let mut data = plain.to_vec();
    data.extend(std::iter::repeat(pad as u8).take(pad));
    for chunk in data.chunks_mut(16) {
        let block = GenericArray::from_mut_slice(chunk);
        cipher.encrypt_block(block);
    }
    general_purpose::STANDARD.encode(data)
}

#[test]
fn md5_hex_matches_known_digests() {
    assert_eq!(md5_hex_str(""), "d41d8cd98f00b204e9800998ecf8427e");
    assert_eq!(md5_hex_str("abc"), "900150983cd24fb0d6963f7d28e17f72");
    let chars: Vec<char> = "170000000018comicAPP".chars().collect();
    let hex: String = md5_hex(&chars).iter().collect();
    assert_eq!(hex, "1c6fa345eea2e10d5a30880ec2a7e0b3");
}

#[test]
fn hex_encodes_bytes() {
    let hex: String = to_lower_hex(&[0x00, 0xab, 0x9f]).iter().collect();
    assert_eq!(hex, "00ab9f");
}

#[test]
fn data_key_is_hex_digest_bytes() {
    assert_eq!(data_key(1700000000), b"880c64833265ad47a928afcf1b1220f5".to_vec());
}

#[test]
fn decrypts_what_the_api_encrypts() {
    let ts = 1700000000;
    let plain = "{\"id\":1,\"name\":\"测试\"}";
    let payload = encrypt(ts, plain.as_bytes());
    assert_eq!(decrypt_data(ts, &payload).unwrap(), plain);
    // A full block of padding.
    let payload16 = encrypt(ts, b"0123456789abcdef");
    assert_eq!(decrypt_data(ts, &payload16).unwrap(), "0123456789abcdef");
}

#[test]
fn reports_each_decryption_stage() {
    let ts = 1700000000;
    assert_eq!(decrypt_data(ts, "not base64!").unwrap_err().stage, DecryptStage::Base64);
    assert_eq!(decrypt_data(ts, "").unwrap_err().stage, DecryptStage::BlockLength);
    assert_eq!(decrypt_data(ts, "AAAA").unwrap_err().stage, DecryptStage::BlockLength);
    // The wrong time gives a wrong key, so the padding check fails (or, rarely, UTF-8).
    let payload = encrypt(ts, b"hello");
    let err = decrypt_data(ts + 1, &payload).unwrap_err().stage;
    assert!(err == DecryptStage::Padding || err == DecryptStage::Utf8);
    let bad_utf8 = encrypt(ts, &[0xff, 0xfe]);
    assert_eq!(decrypt_data(ts, &bad_utf8).unwrap_err().stage, DecryptStage::Utf8);
}

#[test]
fn decrypts_raw_ciphertext() {
    let key = data_key(5);
    assert_eq!(decrypt_ciphertext(&key, &[]), Err(DecryptStage::BlockLength));
    assert_eq!(decrypt_ciphertext(&key, &[0u8; 15]), Err(DecryptStage::BlockLength));
}

#[test]
fn unpads_pkcs7() {
    assert_eq!(pkcs7_unpad(&[1, 2, 3, 2, 2]), Some(vec![1, 2, 3]));
    assert_eq!(pkcs7_unpad(&[4, 4, 4, 4]), Some(vec![]));
    assert_eq!(pkcs7_unpad(&[1, 2, 0]), None);
    assert_eq!(pkcs7_unpad(&[1, 3, 2]), None);
    assert_eq!(pkcs7_unpad(&[5, 5]), None);
    assert_eq!(pkcs7_unpad(&[17; 17]), None);
    assert_eq!(pkcs7_unpad(&[]), None);
}

#[test]
fn decryption_removes_only_the_padding() {
    let ts = 42;
    for plain in ["", "hello", "0123456789abcdef", "第一话"] {
        let payload = encrypt(ts, plain.as_bytes());
        let decoded = general_purpose::STANDARD.decode(&payload).unwrap();
        let out = decrypt_data(ts, &payload).unwrap();
        let removed = decoded.len() - out.len();
        assert!((1..=16).contains(&removed));
        assert_eq!(out, plain);
    }
}
