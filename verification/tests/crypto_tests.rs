use dione_lib::aead::{AeadCipher, AeadError, AesGcm};
use dione_lib::dh::{gen_shared_secret, DhKeyPair};
use dione_lib::hashing::{
    adler_hash_bytes, hash_content, seahash_hash_bytes, sha512_hash_bytes, verify_hash, HashType,
};
use dione_lib::kdf::{gen_ck, kdf_ck, kdf_rk};

#[test]
fn aes_aead_basic_encrypt_decrypt() {
    let key = b"an example very very secret key.";
    let nonce = b"unique nonce";
    let plaintext = b"This is just the fucking cleartext.";
    let ciphertext = AesGcm::encrypt(plaintext, key, nonce).unwrap();
    let decrypted = AesGcm::decrypt(&ciphertext, key, nonce).unwrap();
    let plaintext_vec = plaintext.to_vec();
    assert_eq!(plaintext_vec.len(), decrypted.len())
}

#[test]
fn invalid_key_length() {
    let key = b"an example very very secret key";
    let nonce = b"unique nonce";
    let plaintext = b"This is just the fucking cleartext.";
    let encrypted_err = AesGcm::encrypt(plaintext, key, nonce).unwrap_err();
    assert_eq!(encrypted_err, AeadError::InvalidKeyLength(31))
}

#[test]
fn invalid_nonce_length() {
    let key = b"an example very very secret key.";
    let nonce = b"unique nonc";
    let plaintext = b"This is just the fucking cleartext.";
    let encrypted_err = AesGcm::encrypt(plaintext, key, nonce).unwrap_err();
    assert_eq!(encrypted_err, AeadError::InvalidNonceLength(11))
}

#[test]
fn false_encryption() {
    let key = b"An example very very secret key.";
    let dif_key = b"An exumple very very secret key.";
    let nonce = b"unique nonce";
    let plaintext = b"This is just the fucking cleartext.";
    let encrypted = AesGcm::encrypt(plaintext, key, nonce).unwrap();
    let decrypted = AesGcm::decrypt(&encrypted, dif_key, nonce).unwrap_err();
    assert_eq!(decrypted, AeadError::DecryptionFailure)
}

#[test]
fn aead_exact_roundtrip() {
    let key = b"An example very very secret key.";
    let nonce = b"unique nonce";
    let plaintext = b"payload";
    let encrypted = AesGcm::encrypt(plaintext, key, nonce).unwrap();
    assert_eq!(AesGcm::decrypt(&encrypted, key, nonce).unwrap(), plaintext.to_vec());
    // A different nonce must not decrypt.
    let other_nonce = b"unique noncf";
    assert_eq!(
        AesGcm::decrypt(&encrypted, key, other_nonce).unwrap_err(),
        AeadError::DecryptionFailure
    );
}

#[test]
fn kdf_chain_ratchet() {
    let ck = gen_ck();
    let (ck, mk1) = kdf_ck(&ck);
    let (_, mk2) = kdf_ck(&ck);
    assert_ne!(mk1, mk2)
}

#[test]
fn kdf_root_ratchet() {
    let rk = vec![0u8; 32];
    let shared_secret = gen_shared_secret();
    let (rk1, _) = kdf_rk(&rk, &shared_secret);
    let (rk2, _) = kdf_rk(&rk1, &shared_secret);
    assert_ne!(rk1, rk2)
}

#[test]
fn key_generation() {
    let pair_1 = DhKeyPair::new();
    let pair_2 = DhKeyPair::new();
    assert_ne!(pair_1, pair_2)
}

#[test]
fn key_agreement() {
    let alice_pair = DhKeyPair::new();
    let bob_pair = DhKeyPair::new();
    let alice_shared_secret = alice_pair.key_agreement(&bob_pair.public_key);
    let bob_shared_secret = bob_pair.key_agreement(&alice_pair.public_key);
    assert_eq!(alice_shared_secret, bob_shared_secret)
}

#[test]
fn ex_public_key() {
    let key_pair = DhKeyPair::new();
    let public_key_bytes = key_pair.ex_public_key_bytes();
    let extracted_pk = key_pair.public_key.clone();
    assert_eq!(extracted_pk, public_key_bytes)
}

#[test]
fn nq_key_pair() {
    let key_pair1 = DhKeyPair::new();
    let mut key_pair2 = DhKeyPair::new();
    key_pair2.private_key = key_pair1.private_key.clone();
    assert_ne!(key_pair1, key_pair2)
}

#[test]
fn eq_key_pair() {
    let key_pair1 = DhKeyPair::new();
    let key_pair2 = key_pair1.clone();
    assert_eq!(key_pair1, key_pair2)
}

#[test]
fn test_format() {
    let key_pair = DhKeyPair::default();
    let _str = format!("{:?}", key_pair);
}

#[test]
fn sha512_hash_test_eq() {
    let data1 = b"Hello World";
    let data2 = b"Hello World";
    let number1 = sha512_hash_bytes(data1);
    let number2 = sha512_hash_bytes(data2);
    assert_eq!(number1, number2)
}

#[test]
fn sha512_hash_test_nq() {
    let data1 = b"Hello World";
    let data2 = b"Hallo World2";
    let number1 = sha512_hash_bytes(data1);
    let number2 = sha512_hash_bytes(data2);
    assert_ne!(number1, number2)
}

#[test]
fn adler_hash_eq() {
    let data1 = b"Hello World";
    let data2 = b"Hello World";
    let number1 = adler_hash_bytes(data1);
    let number2 = adler_hash_bytes(data2);
    assert_eq!(number1, number2)
}

#[test]
fn adler_hash_nq() {
    let data1 = b"Hello World";
    let data2 = b"Hallo World";
    let number1 = adler_hash_bytes(data1);
    let number2 = adler_hash_bytes(data2);
    assert_ne!(number1, number2)
}

#[test]
fn seahash_hash_eq() {
    let data1 = b"Hello World";
    let data2 = b"Hello World";
    let number1 = seahash_hash_bytes(data1);
    let number2 = seahash_hash_bytes(data2);
    assert_eq!(number1, number2)
}

#[test]
fn seahash_hash_nq() {
    let data1 = b"Hello World";
    let data2 = b"Hallo World2";
    let number1 = seahash_hash_bytes(data1);
    let number2 = seahash_hash_bytes(data2);
    assert_ne!(number1, number2)
}

#[test]
fn hash_content_thresholds() {
    let small = vec![7u8; 1000];
    let (t, h) = hash_content(&small);
    assert_eq!(t, HashType::Sha512);
    assert_eq!(h, sha512_hash_bytes(&small));
    let medium = vec![7u8; 1001];
    let (t, h) = hash_content(&medium);
    assert_eq!(t, HashType::Adler32);
    assert_eq!(h, adler_hash_bytes(&medium));
    let large = vec![7u8; 10001];
    let (t, h) = hash_content(&large);
    assert_eq!(t, HashType::Lz4);
    assert_eq!(h, seahash_hash_bytes(&large));
}

#[test]
fn verify_hash_cases() {
    let content = b"stored blob";
    assert!(verify_hash(0, content, &sha512_hash_bytes(content)));
    assert!(verify_hash(1, content, &adler_hash_bytes(content)));
    assert!(verify_hash(2, content, &seahash_hash_bytes(content)));
    assert!(!verify_hash(0, content, &adler_hash_bytes(content)));
    assert!(!verify_hash(7, content, &sha512_hash_bytes(content)));
}
