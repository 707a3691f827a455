use sha3::{Digest, Keccak256};

use postchain::post::{hash_score, Body, Post, BODY_SIZE, POST_SIZE};
use postchain::seredere::{Deser, Ser, VecU8Iterator};
use postchain::word::{Word, WORD_SIZE};

fn word_from_u64(x: u64) -> Word {
    let mut bytes = vec![0u8; WORD_SIZE];
    bytes[..8].copy_from_slice(&x.to_le_bytes());
    Word::from_le_bytes(bytes)
}

#[test]
fn post_encoding_and_hash() {
    // A post whose prev and work both hold 0x04050607 and whose body is
    // 1024 bytes of 0x42: 1088 encoded bytes, the first 32 of which
    // decode back to prev, and whose hash is the Keccak-256 digest of
    // exactly those bytes.
    let prev = word_from_u64(0x04050607);
    let work = word_from_u64(0x04050607);
    let body = Body::new(vec![0x42; BODY_SIZE]);
    let post = Post::new(&prev, &work, &body);

    let encoded = post.ser_iter().unwrap();
    assert_eq!(encoded.len(), POST_SIZE);
    assert_eq!(encoded.len(), 2 * WORD_SIZE + BODY_SIZE);

    let mut stream = VecU8Iterator::new(encoded.clone());
    let first_word = Word::deser_from_iter(&mut stream).unwrap();
    assert_eq!(first_word, prev);

    let digest = Keccak256::digest(&encoded).to_vec();
    let expected_hash = Word::from_le_bytes(digest);
    let hash = post.hash();
    assert_eq!(hash, expected_hash);
    assert_ne!(hash, Word::zero());
}

#[test]
fn hash_ignores_nothing() {
    // Two posts that differ in a single body byte hash differently.
    let prev = word_from_u64(1);
    let work = word_from_u64(2);
    let mut body_bytes = vec![0u8; BODY_SIZE];
    let a = Post::new(&prev, &work, &Body::new(body_bytes.clone()));
    body_bytes[BODY_SIZE - 1] = 1;
    let b = Post::new(&prev, &work, &Body::new(body_bytes));
    assert_ne!(a.hash(), b.hash());
}

#[test]
fn score_of_zero_is_zero() {
    assert_eq!(hash_score(&Word::zero()), Word::zero());
}

#[test]
fn score_of_one_is_max() {
    // (2^256 - 1) / 1 is the largest word value.
    assert_eq!(hash_score(&word_from_u64(1)), Word::max_value());
}

#[test]
fn score_of_two_is_half_max() {
    // (2^256 - 1) / 2 == 2^255 - 1: thirty-one 0xff bytes, then 0x7f.
    let mut expected = vec![0xffu8; WORD_SIZE];
    expected[WORD_SIZE - 1] = 0x7f;
    assert_eq!(hash_score(&word_from_u64(2)), Word::from_le_bytes(expected));
}

#[test]
fn score_orders_hashes() {
    // A smaller nonzero hash scores at least as high as a bigger one.
    let lo = hash_score(&word_from_u64(0x10000));
    let hi = hash_score(&word_from_u64(0x100));
    // Compare as little-endian values, from the most significant byte.
    let lo_bytes = lo.to_le_bytes();
    let hi_bytes = hi.to_le_bytes();
    let ge = hi_bytes
        .iter()
        .rev()
        .zip(lo_bytes.iter().rev())
        .find(|(h, l)| h != l)
        .map(|(h, l)| h > l)
        .unwrap_or(true);
    assert!(ge);
}
