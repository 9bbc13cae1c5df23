use aes_gcm::aead::{Aead, KeyInit};
use aes_gcm::{Aes256Gcm, Nonce};
use hmac::{Hmac, Mac};
use sha2::Sha256;
use spl::crypto::{decrypt_chunk, encrypt_chunk, join_frame, split_frame, ChunkError};

fn test_key() -> Vec<u8> {
    (0u8..32).collect()
}

fn hmac_of(key: &[u8], data: &[u8]) -> Vec<u8> {
    let mut mac = <Hmac<Sha256> as Mac>::new_from_slice(key).unwrap();
    mac.update(data);
    mac.finalize().into_bytes().to_vec()
}

#[test]
fn round_trip_restores_plaintext() {
    let key = test_key();
    let plaintext = b"hello, secure world".to_vec();
    let frame = encrypt_chunk(&key, &plaintext);
    assert_eq!(frame.len(), plaintext.len() + 12 + 16 + 32);
    assert_eq!(decrypt_chunk(&key, &frame), Ok(plaintext));
}

#[test]
fn round_trip_empty_plaintext() {
    let key = test_key();
    let frame = encrypt_chunk(&key, &[]);
    assert_eq!(frame.len(), 60);
    assert_eq!(decrypt_chunk(&key, &frame), Ok(Vec::new()));
}

#[test]
fn frame_layout_matches_outside_crates() {
    let key = test_key();
    let plaintext = vec![7u8; 100];
    let frame = encrypt_chunk(&key, &plaintext);
    let nonce = &frame[..12];
    let sealed = &frame[12..frame.len() - 32];
    let mac = &frame[frame.len() - 32..];
    assert_ne!(sealed, &plaintext[..]);
    assert_eq!(mac, &hmac_of(&key, sealed)[..]);
    let cipher = Aes256Gcm::new_from_slice(&key).unwrap();
    assert_eq!(cipher.decrypt(Nonce::from_slice(nonce), sealed).unwrap(), plaintext);
}

#[test]
fn nonces_differ_between_encryptions() {
    let key = test_key();
    let a = encrypt_chunk(&key, b"same");
    let b = encrypt_chunk(&key, b"same");
    assert_ne!(a[..12], b[..12]);
}

#[test]
fn flipped_mac_bit_is_detected() {
    let key = test_key();
    let frame = encrypt_chunk(&key, b"payload bytes");
    for pos in frame.len() - 32..frame.len() {
        for bit in 0..8 {
            let mut t = frame.clone();
            t[pos] ^= 1 << bit;
            assert_eq!(decrypt_chunk(&key, &t), Err(ChunkError::MacVerificationFailed));
        }
    }
}

#[test]
fn flipped_ciphertext_bit_is_detected() {
    let key = test_key();
    let frame = encrypt_chunk(&key, b"payload bytes");
    for pos in 12..frame.len() - 32 {
        for bit in 0..8 {
            let mut t = frame.clone();
            t[pos] ^= 1 << bit;
            assert_eq!(decrypt_chunk(&key, &t), Err(ChunkError::MacVerificationFailed));
        }
    }
}

#[test]
fn short_frame_is_too_small() {
    let key = test_key();
    assert_eq!(decrypt_chunk(&key, &[0u8; 43]), Err(ChunkError::ChunkTooSmall));
    assert_eq!(decrypt_chunk(&key, &[]), Err(ChunkError::ChunkTooSmall));
}

#[test]
fn wrong_key_fails_mac() {
    let key = test_key();
    let frame = encrypt_chunk(&key, b"secret");
    let other = vec![9u8; 32];
    assert_eq!(decrypt_chunk(&other, &frame), Err(ChunkError::MacVerificationFailed));
}

#[test]
fn valid_mac_over_bad_ciphertext_fails_decryption() {
    let key = test_key();
    let sealed = vec![0xAAu8; 40];
    let mut frame = vec![1u8; 12];
    frame.extend_from_slice(&sealed);
    frame.extend_from_slice(&hmac_of(&key, &sealed));
    assert_eq!(decrypt_chunk(&key, &frame), Err(ChunkError::DecryptionFailed));
}

#[test]
fn minimum_size_frame_fails_decryption() {
    let key = test_key();
    let mut frame = vec![0u8; 12];
    frame.extend_from_slice(&hmac_of(&key, &[]));
    assert_eq!(frame.len(), 44);
    assert_eq!(decrypt_chunk(&key, &frame), Err(ChunkError::DecryptionFailed));
}

#[test]
fn split_and_join_frame() {
    let frame: Vec<u8> = (0u8..50).collect();
    let (n, c, m) = split_frame(&frame).unwrap();
    assert_eq!(n, (0u8..12).collect::<Vec<u8>>());
    assert_eq!(c, (12u8..18).collect::<Vec<u8>>());
    assert_eq!(m, (18u8..50).collect::<Vec<u8>>());
    assert_eq!(join_frame(&n, &c, &m), frame);
    assert_eq!(split_frame(&frame[..43]), Err(ChunkError::ChunkTooSmall));
}

#[test]
fn frames_between_minimum_and_tag_size_fail() {
    let key = test_key();
    for len in 44..60 {
        let sealed = vec![3u8; len - 44];
        let mut frame = vec![0u8; 12];
        frame.extend_from_slice(&sealed);
        frame.extend_from_slice(&hmac_of(&key, &sealed));
        assert_eq!(decrypt_chunk(&key, &frame), Err(ChunkError::DecryptionFailed));
    }
}
