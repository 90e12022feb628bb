use russel::crypto::VigenereCipher;

#[test]
fn encrypt_adds_key_bytes_cyclically() {
    let cipher = VigenereCipher::new("ab");
    // 'a' = 97, 'b' = 98
    assert_eq!(cipher.encrypt(vec![0, 0, 1]), vec![97, 98, 98]);
}

#[test]
fn encrypt_wraps_around() {
    let cipher = VigenereCipher::new("b");
    assert_eq!(cipher.encrypt(vec![200, 1]), vec![42, 99]);
}

#[test]
fn decrypt_subtracts_and_wraps() {
    let cipher = VigenereCipher::new("b");
    assert_eq!(cipher.decrypt(vec![0, 99]), vec![158, 1]);
}

#[test]
fn decrypt_undoes_encrypt() {
    let cipher = VigenereCipher::new("secret key");
    let data: Vec<u8> = (0..=255u8).collect();
    let sealed = cipher.encrypt(data.clone());
    assert_eq!(sealed.len(), data.len());
    assert_ne!(sealed, data);
    assert_eq!(cipher.decrypt(sealed), data);
}

#[test]
fn encrypt_undoes_decrypt() {
    let cipher = VigenereCipher::new("k");
    let data = b"hello world".to_vec();
    assert_eq!(cipher.encrypt(cipher.decrypt(data.clone())), data);
}

#[test]
fn multibyte_key_uses_utf8_bytes() {
    // "é" is 0xC3 0xA9 in UTF-8
    let cipher = VigenereCipher::new("é");
    assert_eq!(cipher.encrypt(vec![0, 0, 0]), vec![0xC3, 0xA9, 0xC3]);
}

#[test]
fn empty_data_gives_empty_output() {
    let cipher = VigenereCipher::new("");
    assert_eq!(cipher.encrypt(vec![]), Vec::<u8>::new());
    assert_eq!(cipher.decrypt(vec![]), Vec::<u8>::new());
}

#[test]
fn doubled_key_ciphers_as_the_key_once() {
    let data: Vec<u8> = (0..40u8).map(|b| b.wrapping_mul(37)).collect();
    let once = VigenereCipher::new("kéy");
    let twice = VigenereCipher::new("kéykéy");
    assert_eq!(twice.encrypt(data.clone()), once.encrypt(data.clone()));
    assert_eq!(twice.decrypt(data.clone()), once.decrypt(data));
}

#[test]
fn nul_key_leaves_data_unchanged() {
    let cipher = VigenereCipher::new("\0");
    let data = vec![0u8, 1, 128, 255];
    assert_eq!(cipher.encrypt(data.clone()), data);
    assert_eq!(cipher.decrypt(data.clone()), data);
}

#[test]
fn prefix_of_data_gives_prefix_of_output() {
    let cipher = VigenereCipher::new("abc");
    let data = b"the quick brown fox".to_vec();
    let full = cipher.encrypt(data.clone());
    for n in 0..=data.len() {
        assert_eq!(cipher.encrypt(data[..n].to_vec()), full[..n].to_vec());
    }
}
